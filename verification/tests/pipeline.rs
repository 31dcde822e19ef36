use nnc::frontend::ir_gen::ir::Ir;
use nnc::frontend::lexer::lexeme::is_blank;
use nnc::frontend::lexer::sanitize;
use nnc::frontend::module::span::ModuleId;
use nnc::frontend::module::Module;
use nnc::frontend::parser::ast::AstType;
use nnc::middleend::bytecode::BytecodeData;

/// A small generator of numbers that gives the same sequence on every run.
struct Numbers(u64);

impl Numbers {
    fn next(&mut self) -> u64 {
        self.0 = self.0.wrapping_mul(6364136223846793005).wrapping_add(1442695040888963407);
        self.0 >> 33
    }

    fn below(&mut self, n: usize) -> usize {
        (self.next() % n as u64) as usize
    }
}

const PIECES: [&str; 32] = [
    "def", "fun", "return", "var", "const", "struct", "f", "main", "x_1", "0", "42", "0x1F",
    "1_000", "1.5", "1.2.3", "0b", "(", ")", "{", "}", ";", "+", "=>", "=", "/", "// c\n",
    "/* c */", "/*", "\"s\"", "\"", "\n", "é",
];

fn random_source(numbers: &mut Numbers) -> String {
    let mut source = String::new();
    let count = numbers.below(40);
    for _ in 0..count {
        source.push_str(PIECES[numbers.below(PIECES.len())]);
        match numbers.below(4) {
            0 => source.push(' '),
            1 => source.push('\t'),
            _ => {}
        }
    }
    source
}

fn random_program(numbers: &mut Numbers) -> String {
    let mut source = String::new();
    let count = numbers.below(6);
    for i in 0..count {
        let name = ["a", "b", "c"][numbers.below(3)];
        let mut body = String::from("1");
        for _ in 0..numbers.below(5) {
            match numbers.below(3) {
                0 => body = format!("({})", body),
                1 => body = format!("{} + {}", body, numbers.below(100)),
                _ => body = format!("{} + {}()", body, ["a", "b", "c"][numbers.below(3)]),
            }
        }
        if numbers.below(2) == 0 {
            source.push_str(&format!("def fun {}{}() => {};\n", name, i, body));
        } else {
            source.push_str(&format!("def fun {}{}() {{ return {}; }} // {}\n", name, i, body, i));
        }
    }
    source
}

/// Runs the four stages on `source` and checks what each stage promises of
/// every input.
fn check_module(source: &str) -> Module {
    let mut module = Module::new(ModuleId::from(0usize), source.to_string());
    let bytes = source.as_bytes();

    module.lex();
    let mut at = 0usize;
    for t in module.tokens().iter() {
        assert!(t.span.start >= at && t.span.len >= 1);
        assert!(bytes[at..t.span.start].iter().all(|b| is_blank(*b)));
        at = t.span.start + t.span.len;
        assert!(at <= bytes.len());
    }
    assert!(bytes[at..].iter().all(|b| is_blank(*b)));
    assert!(sanitize(module.tokens()).iter().all(|t| !t.ttype.is_trivia()));

    module.parse();
    let asts = module.ast_nodes();
    assert!(asts.len() >= 2);
    assert!(matches!(asts.as_slice()[asts.len() - 1].atype, AstType::Program(_)));
    assert!(matches!(asts.as_slice()[asts.len() - 2].atype, AstType::TopBlock(_)));
    for (i, ast) in asts.as_slice().iter().enumerate() {
        assert_eq!(ast.id.0, i);
        assert!(ast.span.start + ast.span.len <= bytes.len());
        match &ast.atype {
            AstType::Program(b) | AstType::Return(b) => assert!(b.0 < i),
            AstType::TopBlock(v) | AstType::FunctionBlock(v) | AstType::Block(v) => {
                assert!(v.iter().all(|c| c.0 < i))
            }
            AstType::FunctionDefinition { ftype, body } => assert!(ftype.0 < i && body.0 < i),
            AstType::FunctionType { name, constant_params, params } => {
                assert!(name.0 < i && params.0 < i && constant_params.is_unresolved())
            }
            AstType::Add { left, right } => assert!(left.0 < i && right.0 < i),
            AstType::FunctionCall { function, args } => {
                assert!(function.0 < i && args.is_unresolved())
            }
            _ => {}
        }
    }

    module.gen_ir();
    let irs = module.ir();
    assert!(irs.len() >= 1);
    let mut marked = 0;
    for (i, node) in irs.as_slice().iter().enumerate() {
        match node {
            Ir::Reserved => panic!("a place is left reserved"),
            Ir::Error(_) => marked += 1,
            Ir::Block(v) => {
                assert!(v.iter().all(|c| i < c.0 && c.0 < irs.len()));
                assert!(v.windows(2).all(|pair| pair[0].0 < pair[1].0));
            }
            Ir::Value { value, typ } => assert!(value.0 < i && typ.0 < i),
            Ir::Add { lhs, rhs } => assert!(lhs.0 < i && rhs.0 < i),
            Ir::Return { value, block } => assert!(value.0 < i && block.is_unresolved()),
            Ir::Call { fun, args } => assert!(fun.0 < i && args.is_unresolved()),
            Ir::Deffun { iden, params, returns, body } => {
                assert!(iden.0 < i && params.0 < i && returns.0 < i && body.0 < i)
            }
            _ => {}
        }
    }
    assert_eq!(marked, module.ir_errors.len());

    let prepared = module.prepare();
    let mut open: Vec<&BytecodeData> = vec![];
    for b in module.code.as_slice().iter() {
        match &b.tag {
            BytecodeData::ScopeStart(_) | BytecodeData::FunStart(_) => open.push(&b.tag),
            BytecodeData::ScopeEnd(id) => {
                assert_eq!(open.pop(), Some(&BytecodeData::ScopeStart(*id)))
            }
            BytecodeData::FunEnd(id) => assert_eq!(open.pop(), Some(&BytecodeData::FunStart(*id))),
            _ => {}
        }
    }
    assert!(open.is_empty());
    assert!(matches!(module.ir().first(), Some(Ir::Block(_))));
    assert_eq!(prepared, Ok(()));
    assert_eq!(module.functions.len(), module.symbols.len());
    assert_eq!(module.scopes.len(), module.functions.len() + 1);
    module
}

#[test]
fn stages_keep_their_promises_on_random_text() {
    let mut numbers = Numbers(2024);
    for _ in 0..400 {
        let source = random_source(&mut numbers);
        check_module(&source);
    }
}

#[test]
fn stages_keep_their_promises_on_random_programs() {
    let mut numbers = Numbers(7);
    for _ in 0..200 {
        let source = random_program(&mut numbers);
        let module = check_module(&source);
        assert_eq!(module.parser_errors.len(), 0);
        assert_eq!(module.ir_errors.len(), 0);
        let defined = source.matches("def fun").count();
        assert_eq!(module.functions.len(), defined);
        assert_eq!(module.code.len(), 2 + 4 * defined);
    }
}

#[test]
fn deep_nesting_is_parsed() {
    let depth = 200;
    let source = format!("def fun f() => {}1{};", "(".repeat(depth), ")".repeat(depth));
    let module = check_module(&source);
    assert_eq!(module.parser_errors.len(), 0);
    let sum: String = (0..300).map(|i| format!("{} + ", i)).collect();
    let source = format!("def fun f() => {}0;", sum);
    let module = check_module(&source);
    assert_eq!(module.parser_errors.len(), 0);
    assert_eq!(module.ir_errors.len(), 0);
}
