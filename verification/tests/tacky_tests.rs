use myc::ast;
use myc::tacky::BinaryOperator;
use myc::tacky::Instruction;
use myc::tacky::TackyGen;
use myc::tacky::UnaryOperator;
use myc::tacky::Value;

#[test]
fn tacky_constant() {
    let mut t = TackyGen::new();
    let stmt = ast::Statement::Return(ast::Expression::Constant(3));
    let i = t.instructions(stmt);
    assert_eq!(i, vec![Instruction::Return(Value::Constant(3))])
}

#[test]
fn tacky_single_unary() {
    let mut t = TackyGen::new();
    let stmt = ast::Statement::Return(ast::Expression::Unary(
        ast::UnaryOperation::Complement,
        Box::new(ast::Expression::Constant(2)),
    ));
    let i = t.instructions(stmt);
    assert_eq!(
        i,
        vec![
            Instruction::Unary {
                operator: UnaryOperator::Complement,
                src: Value::Constant(2),
                dst: Value::Var("__tmp.0".into())
            },
            Instruction::Return(Value::Var("__tmp.0".into()))
        ]
    )
}

#[test]
fn tacky_nested_unary() {
    let mut t = TackyGen::new();
    let stmt = ast::Statement::Return(ast::Expression::Unary(
        ast::UnaryOperation::Negate,
        Box::new(ast::Expression::Unary(
            ast::UnaryOperation::Complement,
            Box::new(ast::Expression::Unary(
                ast::UnaryOperation::Negate,
                Box::new(ast::Expression::Constant(8)),
            )),
        )),
    ));
    let i = t.instructions(stmt);
    assert_eq!(
        i,
        vec![
            Instruction::Unary {
                operator: UnaryOperator::Negate,
                src: Value::Constant(8),
                dst: Value::Var("__tmp.0".into())
            },
            Instruction::Unary {
                operator: UnaryOperator::Complement,
                src: Value::Var("__tmp.0".into()),
                dst: Value::Var("__tmp.1".into())
            },
            Instruction::Unary {
                operator: UnaryOperator::Negate,
                src: Value::Var("__tmp.1".into()),
                dst: Value::Var("__tmp.2".into())
            },
            Instruction::Return(Value::Var("__tmp.2".into()))
        ]
    )
}

#[test]
fn tacky_single_binary() {
    let mut t = TackyGen::new();
    let stmt = ast::Statement::Return(ast::Expression::Binary(
        ast::BinaryOperation::Subtract,
        Box::new(ast::Expression::Constant(1)),
        Box::new(ast::Expression::Constant(2)),
    ));
    let i = t.instructions(stmt);
    assert_eq!(
        i,
        vec![
            Instruction::Binary {
                operator: BinaryOperator::Subtract,
                left: Value::Constant(1),
                right: Value::Constant(2),
                dst: Value::Var("__tmp.0".into())
            },
            Instruction::Return(Value::Var("__tmp.0".into()))
        ]
    )
}

#[test]
fn tacky_nested_binary() {
    let mut t = TackyGen::new();
    let stmt = ast::Statement::Return(ast::Expression::Binary(
        ast::BinaryOperation::Subtract,
        Box::new(ast::Expression::Binary(
            ast::BinaryOperation::Subtract,
            Box::new(ast::Expression::Constant(1)),
            Box::new(ast::Expression::Constant(2)),
        )),
        Box::new(ast::Expression::Constant(3)),
    ));
    let i = t.instructions(stmt);
    assert_eq!(
        i,
        vec![
            Instruction::Binary {
                operator: BinaryOperator::Subtract,
                left: Value::Constant(1),
                right: Value::Constant(2),
                dst: Value::Var("__tmp.0".into())
            },
            Instruction::Binary {
                operator: BinaryOperator::Subtract,
                left: Value::Var("__tmp.0".into()),
                right: Value::Constant(3),
                dst: Value::Var("__tmp.1".into())
            },
            Instruction::Return(Value::Var("__tmp.1".into()))
        ]
    )
}

#[test]
fn tacky_nested_precedence_binary() {
    let mut t = TackyGen::new();
    let stmt = ast::Statement::Return(ast::Expression::Binary(
        ast::BinaryOperation::Subtract,
        Box::new(ast::Expression::Binary(
            ast::BinaryOperation::Multiply,
            Box::new(ast::Expression::Constant(2)),
            Box::new(ast::Expression::Constant(3)),
        )),
        Box::new(ast::Expression::Constant(1)),
    ));
    let i = t.instructions(stmt);
    assert_eq!(
        i,
        vec![
            Instruction::Binary {
                operator: BinaryOperator::Multiply,
                left: Value::Constant(2),
                right: Value::Constant(3),
                dst: Value::Var("__tmp.0".into())
            },
            Instruction::Binary {
                operator: BinaryOperator::Subtract,
                left: Value::Var("__tmp.0".into()),
                right: Value::Constant(1),
                dst: Value::Var("__tmp.1".into())
            },
            Instruction::Return(Value::Var("__tmp.1".into()))
        ]
    )
}
