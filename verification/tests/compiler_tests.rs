use monkey_bytecode::ast::{
    Expression, Identifier, InfixOperator, LetStatement, Primitive, Program, Statement, Token,
};
use monkey_bytecode::code::{read_u16, Opcode};
use monkey_bytecode::compiler::{Compiler, CompileError};
use monkey_bytecode::object::Object;

fn int_lit(i: i64) -> Expression {
    Expression::Primitive(Primitive::IntegerLiteral(i))
}

fn ident(name: &str) -> Expression {
    Expression::Identifier(Identifier { value: name.to_string() })
}

fn infix(token: Token, left: Expression, right: Expression) -> Expression {
    Expression::Infix(InfixOperator { token, left: Box::new(left), right: Box::new(right) })
}

fn expr_stmt(e: Expression) -> Statement {
    Statement::Expression(e)
}

fn program(statements: Vec<Statement>) -> Program {
    Program { statements }
}

#[test]
fn test_compiler_scopes() {
    let mut compiler = Compiler::new();

    assert_eq!(compiler.scope_index, 0);
    compiler.emit(Opcode::Mul, vec![]);

    compiler.enter_scope();
    assert_eq!(compiler.scope_index, 1);

    compiler.emit(Opcode::Sub, vec![]);
    assert_eq!(
        compiler.scopes[compiler.scope_index].instructions.data.len(),
        1
    );

    let last = compiler.scopes[compiler.scope_index]
        .last_instruction
        .unwrap();
    assert_eq!(last.opcode, Opcode::Sub);

    compiler.leave_scope();
    assert_eq!(compiler.scope_index, 0);

    compiler.emit(Opcode::Add, vec![]);
    assert_eq!(
        compiler.scopes[compiler.scope_index].instructions.data.len(),
        2
    );

    let last = compiler.scopes[compiler.scope_index]
        .last_instruction
        .unwrap();
    assert_eq!(last.opcode, Opcode::Add);

    let previous = compiler.scopes[compiler.scope_index]
        .previous_instruction
        .unwrap();
    assert_eq!(previous.opcode, Opcode::Mul);
}

#[test]
fn test_patch_operand_roundtrip() {
    let mut compiler = Compiler::new();
    let pos = compiler.emit(Opcode::Jump, vec![9999]);
    compiler.emit(Opcode::Null, vec![]);
    let before_len = compiler.scopes[0].instructions.data.len();

    compiler.change_operand(pos, 1234).unwrap();

    let data = &compiler.scopes[0].instructions.data;
    assert_eq!(data.len(), before_len);
    assert_eq!(Opcode::from_byte(data[pos]), Some(Opcode::Jump));
    assert_eq!(read_u16(data, pos + 1), 1234);
}

#[test]
fn test_change_operand_rejects_bad_position() {
    let mut compiler = Compiler::new();
    compiler.emit(Opcode::Null, vec![]);
    let result = compiler.change_operand(17, 1);
    assert!(matches!(result, Err(CompileError::InvalidPatch)));
}

#[test]
fn test_lt_compiles_as_swapped_gt() {
    let mut c1 = Compiler::new();
    c1.compile(program(vec![expr_stmt(infix(Token::LT, int_lit(1), int_lit(2)))]))
        .unwrap();
    let mut c2 = Compiler::new();
    c2.compile(program(vec![expr_stmt(infix(Token::GT, int_lit(2), int_lit(1)))]))
        .unwrap();
    assert_eq!(
        c1.bytecode().instructions.data,
        c2.bytecode().instructions.data
    );
    assert_eq!(c1.bytecode().constants, c2.bytecode().constants);
}

#[test]
fn test_lte_compiles_as_swapped_gte() {
    let mut c1 = Compiler::new();
    c1.compile(program(vec![expr_stmt(infix(Token::LTE, int_lit(3), int_lit(4)))]))
        .unwrap();
    let mut c2 = Compiler::new();
    c2.compile(program(vec![expr_stmt(infix(Token::GTE, int_lit(4), int_lit(3)))]))
        .unwrap();
    assert_eq!(
        c1.bytecode().instructions.data,
        c2.bytecode().instructions.data
    );
}

#[test]
fn test_constants_are_pooled_in_source_order() {
    let mut compiler = Compiler::new();
    compiler
        .compile(program(vec![expr_stmt(infix(
            Token::Plus,
            int_lit(1),
            infix(Token::Asterisk, int_lit(2), int_lit(3)),
        ))]))
        .unwrap();
    let bytecode = compiler.bytecode();
    assert_eq!(
        bytecode.constants,
        vec![Object::INTEGER(1), Object::INTEGER(2), Object::INTEGER(3)]
    );
}

#[test]
fn test_undefined_variable_is_a_compile_error() {
    let mut compiler = Compiler::new();
    let result = compiler.compile(program(vec![expr_stmt(ident("missing"))]));
    assert!(matches!(result, Err(CompileError::UndefinedVariable(_))));
}

#[test]
fn test_unknown_infix_operator_is_a_compile_error() {
    let mut compiler = Compiler::new();
    let result = compiler.compile(program(vec![expr_stmt(infix(
        Token::Assign,
        int_lit(1),
        int_lit(2),
    ))]));
    assert!(matches!(
        result,
        Err(CompileError::UnknownInfixOperator(Token::Assign))
    ));
}

#[test]
fn test_redefined_name_shadows_but_keeps_slots() {
    let mut compiler = Compiler::new();
    compiler
        .compile(program(vec![
            Statement::Let(LetStatement { name: "x".to_string(), value: int_lit(1) }),
            Statement::Let(LetStatement { name: "x".to_string(), value: int_lit(2) }),
            Statement::Let(LetStatement { name: "y".to_string(), value: int_lit(3) }),
        ]))
        .unwrap();
    // three definitions take three distinct slots; "x" resolves to its
    // latest one
    assert_eq!(compiler.symbol_table.entries.len(), 3);
    let x = compiler.symbol_table.resolve(&"x".to_string()).unwrap();
    assert_eq!(x.index, 1);
    let y = compiler.symbol_table.resolve(&"y".to_string()).unwrap();
    assert_eq!(y.index, 2);
    assert!(compiler.symbol_table.resolve(&"z".to_string()).is_none());
}
