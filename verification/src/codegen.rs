//! The code generator: from statements to an assembly program that prints
//! the value of each statement and exits.

use crate::expression::{lemma_view_variant, ExprView, Expression};
use crate::statement::{statement_views, Statement};
use crate::token::TokenKind;
use crate::types::{decimal_text, push_decimal};
use vstd::prelude::*;
use vstd::string::StringExecFns;

verus! {

/// The routine `print_uint32`, which every program starts with: it writes
/// the number in `rdi` to the standard output, in base ten. The digits are
/// found by repeated division by ten, the last one first, and stored
/// backwards in a buffer on the stack, which one `write` call then puts out.
pub const PRINT_ROUTINE: &'static str = "    global print_uint32

print_uint32:
    mov rax, rdi

    mov  ecx, 0xa
    push rcx
    mov  rsi, rsp
    sub  rsp, 16

    .toascii_digit:
    xor  edx, edx
    div  ecx
    add  edx, '0'
    dec  rsi
    mov [rsi], dl

    test rax, rax
    jnz  .toascii_digit


    mov  rax, 1
    mov  rdi, 1
    lea  edx, [rsp+16 + 1]
    sub  edx, esi
    syscall
    add  rsp, 24
    ret

";

/// The entry point, after which the statements' code stands.
pub const ENTRY: &'static str = "section .text
    global _start

_start:
";

/// The `exit` call with status 0, which every program ends with.
pub const EXIT: &'static str = "    mov  rax, 60
    mov  rdi, 0
    syscall
";

/// Before the first operand of a sum.
pub const LOAD: &'static str = "    mov  rdi, ";

/// Before the second operand of a sum.
pub const ADD: &'static str = "    add  rdi, ";

/// After an operand.
pub const END_OF_LINE: &'static str = "
";

/// After the code of a sum: prints what it left in `rdi`.
pub const PRINT: &'static str = "    call print_uint32
";

/// The statement that the generator refused: the first one that is not a sum
/// of two number literals.
#[derive(Clone, Copy, Debug, PartialEq, Eq, Structural)]
pub struct CodegenError {
    /// The position of the statement in the program, from 0.
    pub statement: usize,
}

/// The two operands of `e`, if `e` is the sum of two number literals.
pub open spec fn literal_sum(e: ExprView) -> Option<(int, int)> {
    match e {
        ExprView::Binary(lhs, op, rhs) => match (*lhs, op.kind, *rhs) {
            (ExprView::Number(a), TokenKind::Plus, ExprView::Number(b)) => Some((a, b)),
            _ => None,
        },
        _ => None,
    }
}

/// The code that computes the sum of `a` and `b` and prints it.
pub open spec fn sum_code(a: int, b: int) -> Seq<char> {
    LOAD@ + decimal_text(a) + END_OF_LINE@ + ADD@ + decimal_text(b) + END_OF_LINE@ + PRINT@
}

/// The code of the statements `program`, in order; the position of the
/// first statement that is no sum of two number literals, if there is one.
pub open spec fn statements_code(program: Seq<ExprView>) -> Result<Seq<char>, CodegenError>
    decreases program.len(),
{
    if program.len() == 0 {
        Ok(Seq::empty())
    } else {
        match statements_code(program.drop_last()) {
            Err(e) => Err(e),
            Ok(code) => match literal_sum(program.last()) {
                Some((a, b)) => Ok(code + sum_code(a, b)),
                None => Err(CodegenError { statement: (program.len() - 1) as usize }),
            },
        }
    }
}

/// The assembly program for `program`: the print routine, the entry point,
/// the code of the statements, and the exit call.
pub open spec fn assembly(program: Seq<ExprView>) -> Result<Seq<char>, CodegenError> {
    match statements_code(program) {
        Err(e) => Err(e),
        Ok(code) => Ok(PRINT_ROUTINE@ + ENTRY@ + code + EXIT@),
    }
}

/// Whether the outcome of the generator is the one that `v` describes.
pub open spec fn generated(
    r: Result<String, CodegenError>,
    v: Result<Seq<char>, CodegenError>,
) -> bool {
    match (r, v) {
        (Ok(text), Ok(expected)) => text@ == expected,
        (Err(e), Err(expected)) => e == expected,
        _ => false,
    }
}

/// A failure in the first statements of a program is the failure of the
/// whole program.
proof fn lemma_statements_code_fails(program: Seq<ExprView>, k: int)
    requires
        0 <= k <= program.len(),
        statements_code(program.take(k)) is Err,
    ensures
        statements_code(program) == statements_code(program.take(k)),
    decreases program.len() - k,
{
    if k < program.len() {
        assert(program.take(k + 1).drop_last() == program.take(k));
        lemma_statements_code_fails(program, k + 1);
    } else {
        assert(program.take(k) == program);
    }
}

/// The two operands of `expression`, if it is the sum of two number
/// literals.
pub fn sum_operands(expression: &Expression) -> (r: Option<(i64, i64)>)
    ensures
        match (r, literal_sum(expression@)) {
            (Some((a, b)), Some((x, y))) => a == x && b == y,
            (None, None) => true,
            _ => false,
        },
{
    match expression {
        Expression::Binary(sum) => {
            if *sum.get_op().kind() != TokenKind::Plus {
                return None;
            }
            let lhs = sum.get_lhs();
            let rhs = sum.get_rhs();
            proof {
                lemma_view_variant(*lhs);
                lemma_view_variant(*rhs);
            }
            match (lhs, rhs) {
                (Expression::Number(a), Expression::Number(b)) => Some((a.0, b.0)),
                _ => None,
            }
        },
        _ => None,
    }
}

/// Appends to `out` the code that computes the sum of `a` and `b` and prints
/// it.
pub fn emit_sum(out: &mut String, a: i64, b: i64)
    ensures
        final(out)@ == old(out)@ + sum_code(a as int, b as int),
{
    out.append(LOAD);
    push_decimal(out, a);
    out.append(END_OF_LINE);
    out.append(ADD);
    push_decimal(out, b);
    out.append(END_OF_LINE);
    out.append(PRINT);
}

/// Turns `program` into an assembly program that prints the value of each
/// statement and exits. Code can be written only for the sum of two number
/// literals: the first statement that is anything else is refused, and no
/// text is returned.
pub fn generate(program: &Vec<Statement>) -> (r: Result<String, CodegenError>)
    ensures
        generated(r, assembly(statement_views(program@))),
{
    let ghost views = statement_views(program@);
    let mut out = String::new();
    out.append(PRINT_ROUTINE);
    out.append(ENTRY);
    let ghost head = out@;
    let mut i: usize = 0;
    while i < program.len()
        invariant
            i <= program@.len(),
            views == statement_views(program@),
            head == PRINT_ROUTINE@ + ENTRY@,
            statements_code(views.take(i as int)) matches Ok(code) && out@ == head + code,
        decreases program@.len() - i,
    {
        proof {
            assert(views.take(i + 1).drop_last() == views.take(i as int));
        }
        let operands = match &program[i] {
            Statement::Expr(statement) => sum_operands(&statement.expression),
        };
        match operands {
            Some((a, b)) => {
                emit_sum(&mut out, a, b);
            },
            None => {
                proof {
                    lemma_statements_code_fails(views, i + 1);
                }
                return Err(CodegenError { statement: i });
            },
        }
        i = i + 1;
    }
    proof {
        assert(views.take(i as int) == views);
    }
    out.append(EXIT);
    Ok(out)
}

/// Two runs of the generator on one program give the same outcome: the same
/// text, character for character, or the same refusal.
pub proof fn lemma_generate_is_deterministic(
    program: Seq<ExprView>,
    first: Result<String, CodegenError>,
    second: Result<String, CodegenError>,
)
    requires
        generated(first, assembly(program)),
        generated(second, assembly(program)),
    ensures
        first is Ok <==> second is Ok,
        first is Ok ==> first->Ok_0@ == second->Ok_0@,
        first is Err ==> first->Err_0 == second->Err_0,
{
}

} // verus!
