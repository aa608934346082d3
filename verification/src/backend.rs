//! The backend pipeline: syntax tree to IR, IR to assembly text.

use vstd::prelude::*;
use crate::ast::{Ast, Expr, Line, LineV, expr_view};
use crate::codegen::{
    CodeBuilder, CodeTree, ir_wf, lemma_build_wf, op_count, ops_in_lines, sp_build_lines,
    lemma_op_count_nonneg, lemma_ops_in_lines_nonneg,
};
use crate::x86_64::{AsmWriter, lemma_wf_emit_ok, sp_emit_program, sp_render_listing};

verus! {

/// A fatal inconsistency met while emitting: the IR violated its own
/// invariants. `UnknownTemp` names a temporary read before any operation
/// defined it; `BadDestination` is a write into an immediate.
#[derive(Debug, PartialEq, Eq)]
pub enum BackendErr {
    General,
    UnknownTemp(String),
    BadDestination,
}

/// The mathematical value of a `BackendErr`.
pub enum BackendErrV {
    General,
    UnknownTemp(Seq<char>),
    BadDestination,
}

impl View for BackendErr {
    type V = BackendErrV;

    open spec fn view(&self) -> BackendErrV {
        match self {
            BackendErr::General => BackendErrV::General,
            BackendErr::UnknownTemp(t) => BackendErrV::UnknownTemp(t@),
            BackendErr::BadDestination => BackendErrV::BadDestination,
        }
    }
}

/// The operator nodes of one expression, or `None` past `u64::MAX`.
fn count_ops_expr(e: &Expr) -> (r: Option<u64>)
    ensures
        match r {
            Some(c) => c == op_count(expr_view(e)),
            None => op_count(expr_view(e)) > u64::MAX,
        },
    decreases e,
{
    match e {
        Expr::Val(_) => Some(0),
        Expr::Op(l, _, rr) => {
            proof {
                lemma_op_count_nonneg(expr_view(l));
                lemma_op_count_nonneg(expr_view(rr));
            }
            let cl = match count_ops_expr(l) {
                Some(c) => c,
                None => {
                    return None;
                },
            };
            let cr = match count_ops_expr(rr) {
                Some(c) => c,
                None => {
                    return None;
                },
            };
            let s = match cl.checked_add(cr) {
                Some(s) => s,
                None => {
                    return None;
                },
            };
            s.checked_add(1)
        },
    }
}

/// Builds the IR of a program. The temporary counter lives in a machine
/// word, so a program whose operator nodes outnumber it is refused; any
/// other program lowers to exactly the unit sequence of the model
/// `sp_build_lines`.
#[verifier::loop_isolation(false)]
pub fn generate(ast: &Ast) -> (r: Result<CodeTree, BackendErr>)
    ensures
        ops_in_lines(ast@) <= usize::MAX ==> (r matches Ok(c) && c@ == sp_build_lines(ast@, 0)),
        ops_in_lines(ast@) > usize::MAX ==> r == Err::<CodeTree, BackendErr>(BackendErr::General),
{
    let ghost lv = ast@;
    let lines = ast.lines();
    let n = lines.len();
    let mut total: u64 = 0;
    let mut i: usize = 0;
    proof {
        assert(lv.skip(0) =~= lv);
    }
    while i < n
        invariant
            n == lv.len(),
            i <= n,
            total + ops_in_lines(lv.skip(i as int)) == ops_in_lines(lv),
        decreases n - i,
    {
        proof {
            let rest = lv.skip(i as int);
            assert(rest[0] == lv[i as int]);
            assert(rest.drop_first() =~= lv.skip(i as int + 1));
            lemma_ops_in_lines_nonneg(rest.drop_first());
            match lv[i as int] {
                crate::ast::LineV::Expr(e) => lemma_op_count_nonneg(e),
                crate::ast::LineV::Call(_, e) => lemma_op_count_nonneg(e),
                crate::ast::LineV::Decl(_, e) => lemma_op_count_nonneg(e),
            }
        }
        let line = &lines[i];
        let c = match line {
            Line::Expr(e) => count_ops_expr(e),
            Line::Call(_, e) => count_ops_expr(e),
            Line::Decl(_, e) => count_ops_expr(e),
        };
        let c = match c {
            Some(c) => c,
            None => {
                proof {
                    lemma_ops_in_lines_nonneg(lv.skip(i as int + 1));
                }
                return Err(BackendErr::General);
            },
        };
        total = match total.checked_add(c) {
            Some(t) => t,
            None => {
                proof {
                    lemma_ops_in_lines_nonneg(lv.skip(i as int + 1));
                }
                return Err(BackendErr::General);
            },
        };
        i += 1;
    }
    proof {
        assert(lv.skip(n as int) =~= Seq::<crate::ast::LineV>::empty());
    }
    if total <= (usize::MAX as u64) {
        Ok(CodeBuilder::new().build(ast))
    } else {
        Err(BackendErr::General)
    }
}


/// Emits the assembly listing of an IR sequence. A unit count beyond a
/// sixteenth of a machine word is refused; any other IR yields exactly the
/// model's listing, or its fatal inconsistency as the error.
pub fn asm_gen(code: CodeTree) -> (r: Result<String, BackendErr>)
    ensures
        code@.len() <= (usize::MAX - 32) / 16 ==> match sp_emit_program(code@) {
            Ok(p) => r matches Ok(s) && s@ == sp_render_listing(p.0, p.1),
            Err(ev) => r matches Err(e) && e@ == ev,
        },
        code@.len() > (usize::MAX - 32) / 16 ==> (r matches Err(e) && e == BackendErr::General),
{
    AsmWriter::new().write(&code)
}


/// The pipeline is total on its own IR: whatever program the builder
/// lowers, the IR is well-formed and the emitter turns it into a listing
/// without meeting a fatal inconsistency.
pub proof fn lemma_pipeline_total(lines: Seq<LineV>)
    ensures
        ir_wf(sp_build_lines(lines, 0)),
        sp_emit_program(sp_build_lines(lines, 0)) is Ok,
{
    lemma_build_wf(lines, 0, Set::empty());
    lemma_wf_emit_ok(sp_build_lines(lines, 0));
}

} // verus!
