use cute_lib::codegen::{
    emit_sum, generate, sum_operands, CodegenError, ENTRY, EXIT, PRINT_ROUTINE,
};
use cute_lib::expression::{Expression, Number};
use cute_lib::parser::{parse_expressions, Parser};
use cute_lib::statement::{ExpressionStatement, Statement};
use cute_lib::token::{Token, TokenKind};
use cute_lib::types::{push_decimal, push_digits};

fn number(n: i64) -> Expression {
    Expression::Number(Number(n))
}

fn binary(lhs: Expression, kind: TokenKind, sign: &str, rhs: Expression) -> Expression {
    Expression::binary(lhs, Token::new(kind, sign), rhs)
}

fn statement(expression: Expression) -> Statement {
    Statement::Expr(ExpressionStatement::new(expression))
}

fn program(lines: &[&str]) -> Vec<Statement> {
    let source = lines.iter().map(|line| line.to_string()).collect();
    let mut parser = Parser::new(source).unwrap();
    parse_expressions(&mut parser).unwrap()
}

const ONE_PLUS_THREE: &str = "    global print_uint32\n\
\n\
print_uint32:\n\
\x20   mov rax, rdi\n\
\n\
\x20   mov  ecx, 0xa\n\
\x20   push rcx\n\
\x20   mov  rsi, rsp\n\
\x20   sub  rsp, 16\n\
\n\
\x20   .toascii_digit:\n\
\x20   xor  edx, edx\n\
\x20   div  ecx\n\
\x20   add  edx, '0'\n\
\x20   dec  rsi\n\
\x20   mov [rsi], dl\n\
\n\
\x20   test rax, rax\n\
\x20   jnz  .toascii_digit\n\
\n\
\n\
\x20   mov  rax, 1\n\
\x20   mov  rdi, 1\n\
\x20   lea  edx, [rsp+16 + 1]\n\
\x20   sub  edx, esi\n\
\x20   syscall\n\
\x20   add  rsp, 24\n\
\x20   ret\n\
\n\
section .text\n\
\x20   global _start\n\
\n\
_start:\n\
\x20   mov  rdi, 1\n\
\x20   add  rdi, 3\n\
\x20   call print_uint32\n\
\x20   mov  rax, 60\n\
\x20   mov  rdi, 0\n\
\x20   syscall\n";

#[test]
fn generate_gives_the_whole_program() {
    assert_eq!(generate(&program(&["1 + 3"])), Ok(ONE_PLUS_THREE.to_string()));
}

#[test]
fn generate_for_no_statement_gives_routine_entry_and_exit() {
    assert_eq!(generate(&vec![]), Ok(format!("{PRINT_ROUTINE}{ENTRY}{EXIT}")));
}

#[test]
fn generate_emits_each_statement_in_order() {
    let text = generate(&program(&["400 + 20", "0 + 9223372036854775807"])).unwrap();
    let body = "    mov  rdi, 400\n    add  rdi, 20\n    call print_uint32\n\
\x20   mov  rdi, 0\n    add  rdi, 9223372036854775807\n    call print_uint32\n";
    assert_eq!(text, format!("{PRINT_ROUTINE}{ENTRY}{body}{EXIT}"));
}

#[test]
fn generate_twice_gives_the_same_text() {
    let statements = program(&["1 + 3", "30 + 2"]);
    let first = generate(&statements);
    let second = generate(&statements);
    assert!(first.is_ok());
    assert_eq!(first, second);
    let refused = program(&["1 + 3", "30 * 2"]);
    assert_eq!(generate(&refused), generate(&refused));
}

#[test]
fn generate_refuses_other_operators() {
    assert_eq!(generate(&program(&["3 - 1"])), Err(CodegenError { statement: 0 }));
    assert_eq!(generate(&program(&["3 * 1"])), Err(CodegenError { statement: 0 }));
    assert_eq!(generate(&program(&["3 / 1"])), Err(CodegenError { statement: 0 }));
}

#[test]
fn generate_refuses_what_is_no_sum_of_two_literals() {
    assert_eq!(generate(&program(&["3"])), Err(CodegenError { statement: 0 }));
    assert_eq!(generate(&program(&["\"x\""])), Err(CodegenError { statement: 0 }));
    assert_eq!(generate(&program(&["1 + 2 + 3"])), Err(CodegenError { statement: 0 }));
    assert_eq!(generate(&program(&["1 + 2 * 3"])), Err(CodegenError { statement: 0 }));
    assert_eq!(generate(&program(&["\"x\" + 1"])), Err(CodegenError { statement: 0 }));
    assert_eq!(generate(&program(&["1 + \"x\""])), Err(CodegenError { statement: 0 }));
}

#[test]
fn generate_names_the_first_statement_it_refuses() {
    assert_eq!(
        generate(&program(&["1 + 2", "3 + 4", "5 - 6", "7", "8 + 9"])),
        Err(CodegenError { statement: 2 })
    );
}

#[test]
fn sum_operands_of_a_sum_and_of_other_expressions() {
    assert_eq!(sum_operands(&binary(number(1), TokenKind::Plus, "+", number(-3))), Some((1, -3)));
    assert_eq!(sum_operands(&binary(number(1), TokenKind::Minus, "-", number(3))), None);
    assert_eq!(sum_operands(&number(1)), None);
    assert_eq!(
        generate(&vec![statement(binary(number(-1), TokenKind::Plus, "+", number(-3)))]).unwrap(),
        format!(
            "{}{}    mov  rdi, -1\n    add  rdi, -3\n    call print_uint32\n{}",
            PRINT_ROUTINE, ENTRY, EXIT
        )
    );
}

#[test]
fn emit_sum_appends() {
    let mut out = String::from("; ");
    emit_sum(&mut out, 5, 7);
    assert_eq!(out, "; \x20   mov  rdi, 5\n    add  rdi, 7\n    call print_uint32\n");
}

#[test]
fn numbers_are_written_as_std_writes_them() {
    let numbers =
        [0, 1, 9, 10, 11, 99, 100, 12345, -1, -10, -907, i64::MAX, i64::MIN, i64::MIN + 1];
    for n in numbers {
        let mut out = String::from("x");
        push_decimal(&mut out, n);
        assert_eq!(out, format!("x{n}"));
    }
    for n in [0, 7, 10, 1000, u64::MAX] {
        let mut out = String::new();
        push_digits(&mut out, n);
        assert_eq!(out, n.to_string());
    }
}
