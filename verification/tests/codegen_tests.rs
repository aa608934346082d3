use minicomp::ast::Operation;
use minicomp::codegen::{CodeBuilder, CodeTree, CodeUnit, Operand};
use minicomp::frontend::get_ast;

#[test]
fn code() {
    let s = "
        x = 5 + (1 * 2);
        print x + 3;
        y = x * (5 - 2);
        x + 2;
    ";
    let ast = get_ast(s).unwrap();
    let code = CodeBuilder::new().build(&ast);
    let code_true = CodeTree {
        units: vec![
            CodeUnit::Operation {
                op: Operation::Mul,
                lhs: Operand::Immediate(1),
                rhs: Operand::Immediate(2),
                dest: Operand::Temp("_temp_0".into()),
            },
            CodeUnit::Operation {
                op: Operation::Add,
                lhs: Operand::Immediate(5),
                rhs: Operand::Temp("_temp_0".into()),
                dest: Operand::Temp("_temp_1".into()),
            },
            CodeUnit::Assignment {
                name: "x".into(),
                value: Operand::Temp("_temp_1".into()),
            },
            CodeUnit::Operation {
                op: Operation::Add,
                lhs: Operand::Variable("x".into()),
                rhs: Operand::Immediate(3),
                dest: Operand::Temp("_temp_2".into()),
            },
            CodeUnit::FuncCall {
                name: "print".into(),
                args: vec![Operand::Temp("_temp_2".into())],
            },
            CodeUnit::Operation {
                op: Operation::Sub,
                lhs: Operand::Immediate(5),
                rhs: Operand::Immediate(2),
                dest: Operand::Temp("_temp_3".into()),
            },
            CodeUnit::Operation {
                op: Operation::Mul,
                lhs: Operand::Variable("x".into()),
                rhs: Operand::Temp("_temp_3".into()),
                dest: Operand::Temp("_temp_4".into()),
            },
            CodeUnit::Assignment {
                name: "y".into(),
                value: Operand::Temp("_temp_4".into()),
            },
            CodeUnit::Operation {
                op: Operation::Add,
                lhs: Operand::Variable("x".into()),
                rhs: Operand::Immediate(2),
                dest: Operand::Temp("_temp_5".into()),
            },
        ],
    };

    assert_eq!(code, code_true)
}

#[test]
fn lowering_is_post_order() {
    let ast = get_ast("5 + (1 * 2);").unwrap();
    let code = CodeBuilder::new().build(&ast);
    assert_eq!(
        code,
        CodeTree {
            units: vec![
                CodeUnit::Operation {
                    op: Operation::Mul,
                    lhs: Operand::Immediate(1),
                    rhs: Operand::Immediate(2),
                    dest: Operand::Temp("_temp_0".into()),
                },
                CodeUnit::Operation {
                    op: Operation::Add,
                    lhs: Operand::Immediate(5),
                    rhs: Operand::Temp("_temp_0".into()),
                    dest: Operand::Temp("_temp_1".into()),
                },
            ],
        }
    );
}

#[test]
fn leaf_statements_emit_no_units() {
    let ast = get_ast("x; 5;").unwrap();
    let code = CodeBuilder::new().build(&ast);
    assert_eq!(code, CodeTree { units: vec![] });
}

#[test]
fn current_temp_names_the_next_temporary() {
    let b = CodeBuilder::new();
    assert_eq!(b.current_temp(), "_temp_0".to_string());
    let ast = get_ast("1 + 2 + 3;").unwrap();
    let code = b.build(&ast);
    assert_eq!(code.units.len(), 2);
}

#[test]
fn generate_matches_build() {
    let ast = get_ast("x = 1 + 2; print x;").unwrap();
    let via_generate = minicomp::backend::generate(&ast).unwrap();
    let ast2 = get_ast("x = 1 + 2; print x;").unwrap();
    let via_build = CodeBuilder::new().build(&ast2);
    assert_eq!(via_generate, via_build);
}
