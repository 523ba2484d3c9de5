use monkey_bytecode::ast::{
    ArrayLiteral, BlockStatement, Conditional, Expression, FunctionCall, FunctionLiteral,
    HashMapLiteral, Identifier, IndexExpression, InfixOperator, LetStatement, PrefixOperator,
    Primitive, Program, Statement, Token,
};
use monkey_bytecode::compiler::Compiler;
use monkey_bytecode::object::Object;
use monkey_bytecode::vm::{VmError, VM};

fn int_lit(i: i64) -> Expression {
    Expression::Primitive(Primitive::IntegerLiteral(i))
}

fn boolean(b: bool) -> Expression {
    Expression::Primitive(Primitive::BooleanLiteral(b))
}

fn string(s: &str) -> Expression {
    Expression::Primitive(Primitive::StringLiteral(s.to_string()))
}

fn ident(name: &str) -> Expression {
    Expression::Identifier(Identifier { value: name.to_string() })
}

fn infix(token: Token, left: Expression, right: Expression) -> Expression {
    Expression::Infix(InfixOperator { token, left: Box::new(left), right: Box::new(right) })
}

fn prefix(token: Token, right: Expression) -> Expression {
    Expression::Prefix(PrefixOperator { token, right: Box::new(right) })
}

fn array(elements: Vec<Expression>) -> Expression {
    Expression::ArrayLiteral(ArrayLiteral { elements })
}

fn index(left: Expression, idx: Expression) -> Expression {
    Expression::IndexExpression(IndexExpression { left: Box::new(left), index: Box::new(idx) })
}

fn conditional(
    condition: Expression,
    consequence: Vec<Statement>,
    alternative: Option<Vec<Statement>>,
) -> Expression {
    Expression::Conditional(Conditional {
        condition: Box::new(condition),
        consequence: BlockStatement { statements: consequence },
        alternative: alternative.map(|statements| BlockStatement { statements }),
    })
}

fn function(body: Vec<Statement>) -> Expression {
    Expression::FunctionLiteral(FunctionLiteral {
        parameters: vec![],
        body: BlockStatement { statements: body },
    })
}

fn call(f: Expression) -> Expression {
    Expression::FunctionCall(FunctionCall { function: Box::new(f), arguments: vec![] })
}

fn expr_stmt(e: Expression) -> Statement {
    Statement::Expression(e)
}

fn let_stmt(name: &str, value: Expression) -> Statement {
    Statement::Let(LetStatement { name: name.to_string(), value })
}

fn program(statements: Vec<Statement>) -> Program {
    Program { statements }
}

fn run_vm(p: Program) -> VM {
    let mut compiler = Compiler::new();
    compiler.compile(p).unwrap();
    let mut vm = VM::new(compiler.bytecode());
    vm.run().unwrap();
    vm
}

fn run_result(p: Program) -> Object {
    run_vm(p).last_popped_stack_element().unwrap()
}

fn run_error(p: Program) -> VmError {
    let mut compiler = Compiler::new();
    compiler.compile(p).unwrap();
    let mut vm = VM::new(compiler.bytecode());
    vm.run().unwrap_err()
}

#[test]
fn test_integer_literal_roundtrip() {
    assert_eq!(run_result(program(vec![expr_stmt(int_lit(5))])), Object::INTEGER(5));
    assert_eq!(
        run_result(program(vec![expr_stmt(int_lit(-42))])),
        Object::INTEGER(-42)
    );
}

#[test]
fn test_string_literal_roundtrip() {
    assert_eq!(
        run_result(program(vec![expr_stmt(string("hello"))])),
        Object::STRING("hello".to_string())
    );
}

#[test]
fn test_boolean_literal_roundtrip() {
    assert_eq!(
        run_result(program(vec![expr_stmt(boolean(true))])),
        Object::BOOLEAN(true)
    );
    assert_eq!(
        run_result(program(vec![expr_stmt(boolean(false))])),
        Object::BOOLEAN(false)
    );
}

#[test]
fn test_arithmetic_precedence_from_ast() {
    // 1 + 2 * 3, with the precedence already resolved by the tree shape
    let result = run_result(program(vec![expr_stmt(infix(
        Token::Plus,
        int_lit(1),
        infix(Token::Asterisk, int_lit(2), int_lit(3)),
    ))]));
    assert_eq!(result, Object::INTEGER(7));
}

#[test]
fn test_comparison_swap_evaluates_alike() {
    let lt = run_result(program(vec![expr_stmt(infix(Token::LT, int_lit(1), int_lit(2)))]));
    let gt = run_result(program(vec![expr_stmt(infix(Token::GT, int_lit(2), int_lit(1)))]));
    assert_eq!(lt, Object::BOOLEAN(true));
    assert_eq!(gt, Object::BOOLEAN(true));
    let lte = run_result(program(vec![expr_stmt(infix(Token::LTE, int_lit(2), int_lit(2)))]));
    assert_eq!(lte, Object::BOOLEAN(true));
}

#[test]
fn test_let_binding_stores_global() {
    let vm = run_vm(program(vec![let_stmt("x", int_lit(10)), expr_stmt(ident("x"))]));
    assert_eq!(
        vm.last_popped_stack_element().unwrap(),
        Object::INTEGER(10)
    );
    assert_eq!(vm.globals[0], Object::INTEGER(10));
}

#[test]
fn test_array_index_in_range() {
    let result = run_result(program(vec![expr_stmt(index(
        array(vec![int_lit(1), int_lit(2), int_lit(3)]),
        int_lit(1),
    ))]));
    assert_eq!(result, Object::INTEGER(2));
}

#[test]
fn test_array_index_out_of_range_is_null() {
    let result = run_result(program(vec![expr_stmt(index(
        array(vec![int_lit(1), int_lit(2), int_lit(3)]),
        int_lit(5),
    ))]));
    assert_eq!(result, Object::NULL);
}

#[test]
fn test_hashmap_lookup_and_missing_key() {
    let map = Expression::HashMapLiteral(HashMapLiteral {
        pairs: vec![(int_lit(1), int_lit(2)), (string("k"), int_lit(3))],
    });
    let found = run_result(program(vec![expr_stmt(index(map, int_lit(1)))]));
    assert_eq!(found, Object::INTEGER(2));

    let map2 = Expression::HashMapLiteral(HashMapLiteral { pairs: vec![(int_lit(1), int_lit(2))] });
    let missing = run_result(program(vec![expr_stmt(index(map2, int_lit(9)))]));
    assert_eq!(missing, Object::NULL);
}

#[test]
fn test_conditional_without_else_yields_null_when_falsy() {
    let result = run_result(program(vec![expr_stmt(conditional(
        boolean(false),
        vec![expr_stmt(int_lit(10))],
        None,
    ))]));
    assert_eq!(result, Object::NULL);
}

#[test]
fn test_conditional_trailing_pop_removed_exactly_once() {
    // if (true) { 5 } must leave exactly one value on the stack
    let vm = run_vm(program(vec![expr_stmt(conditional(
        boolean(true),
        vec![expr_stmt(int_lit(5))],
        None,
    ))]));
    assert_eq!(vm.last_popped_stack_element().unwrap(), Object::INTEGER(5));
    assert_eq!(vm.stack.len(), 0);
}

#[test]
fn test_conditional_with_else() {
    let result = run_result(program(vec![expr_stmt(conditional(
        boolean(false),
        vec![expr_stmt(int_lit(10))],
        Some(vec![expr_stmt(int_lit(20))]),
    ))]));
    assert_eq!(result, Object::INTEGER(20));
}

#[test]
fn test_function_implicit_return_of_last_expression() {
    // fn() { 5 + 5; }() returns 10: the trailing pop becomes return-value
    let result = run_result(program(vec![expr_stmt(call(function(vec![expr_stmt(
        infix(Token::Plus, int_lit(5), int_lit(5)),
    )])))]));
    assert_eq!(result, Object::INTEGER(10));
}

#[test]
fn test_logical_operators_do_not_short_circuit() {
    let and = run_result(program(vec![expr_stmt(infix(
        Token::And,
        boolean(true),
        boolean(false),
    ))]));
    assert_eq!(and, Object::BOOLEAN(false));
    let or = run_result(program(vec![expr_stmt(infix(
        Token::Or,
        boolean(true),
        boolean(false),
    ))]));
    assert_eq!(or, Object::BOOLEAN(true));
    // a type error on the right operand surfaces even when the left
    // alone would decide the result
    let err = run_error(program(vec![expr_stmt(infix(
        Token::And,
        boolean(false),
        int_lit(5),
    ))]));
    assert_eq!(err, VmError::TypeMismatch);
}

#[test]
fn test_string_concatenation() {
    let result = run_result(program(vec![expr_stmt(infix(
        Token::Plus,
        string("mon"),
        string("key"),
    ))]));
    assert_eq!(result, Object::STRING("monkey".to_string()));
}

#[test]
fn test_prefix_operators() {
    assert_eq!(
        run_result(program(vec![expr_stmt(prefix(Token::Bang, boolean(true)))])),
        Object::BOOLEAN(false)
    );
    assert_eq!(
        run_result(program(vec![expr_stmt(prefix(Token::Minus, int_lit(7)))])),
        Object::INTEGER(-7)
    );
}

#[test]
fn test_division_by_zero_is_a_runtime_error() {
    let err = run_error(program(vec![expr_stmt(infix(Token::Slash, int_lit(1), int_lit(0)))]));
    assert_eq!(err, VmError::DivisionByZero);
}

#[test]
fn test_calling_a_non_function_is_a_runtime_error() {
    let err = run_error(program(vec![expr_stmt(call(int_lit(3)))]));
    assert_eq!(err, VmError::NotCallable);
}

#[test]
fn test_indexing_an_integer_is_a_runtime_error() {
    let err = run_error(program(vec![expr_stmt(index(int_lit(3), int_lit(0)))]));
    assert_eq!(err, VmError::IndexNotSupported);
}

#[test]
fn test_arithmetic_on_booleans_is_a_runtime_error() {
    let err = run_error(program(vec![expr_stmt(infix(
        Token::Plus,
        boolean(true),
        int_lit(1),
    ))]));
    assert_eq!(err, VmError::TypeMismatch);
}

#[test]
fn test_incremental_compilation_shares_state() {
    let mut first = Compiler::new();
    first.compile(program(vec![let_stmt("x", int_lit(10))])).unwrap();
    let bytecode = first.bytecode();
    let mut vm = VM::new(bytecode);
    vm.run().unwrap();

    let mut second = Compiler::new_with_state(first.symbol_table, first.constants);
    second.compile(program(vec![expr_stmt(ident("x"))])).unwrap();
    let mut vm2 = VM::new(second.bytecode());
    // carry the globals over by hand: one shared binding environment
    vm2.globals = vm.globals;
    vm2.run().unwrap();
    assert_eq!(vm2.last_popped_stack_element().unwrap(), Object::INTEGER(10));
}

#[test]
fn test_equality_across_kinds() {
    assert_eq!(
        run_result(program(vec![expr_stmt(infix(Token::Equal, int_lit(1), int_lit(1)))])),
        Object::BOOLEAN(true)
    );
    assert_eq!(
        run_result(program(vec![expr_stmt(infix(
            Token::NotEqual,
            string("a"),
            string("b")
        ))])),
        Object::BOOLEAN(true)
    );
    assert_eq!(
        run_result(program(vec![expr_stmt(infix(Token::Equal, int_lit(1), boolean(true)))])),
        Object::BOOLEAN(false)
    );
}
