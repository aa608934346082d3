//! The IR builder: lowers the syntax tree into an ordered, linear sequence
//! of IR units by post-order traversal, synthesizing uniquely named
//! temporaries. The model `sp_build_lines` fixes the exact unit sequence.

use vstd::prelude::*;
use vstd::string::*;
use crate::ast::{Ast, Expr, ExprV, Line, LineV, Operation, Val, ValV, expr_view};
use crate::text::{dec_digits, u64_to_string};

verus! {

/// An IR operand: an integer immediate, a global variable, or a synthesized
/// temporary named by the builder.
#[derive(Debug, PartialEq, Eq)]
pub enum Operand {
    Immediate(i64),
    Variable(String),
    Temp(String),
}

/// The mathematical value of an `Operand`.
pub enum OperandV {
    Immediate(int),
    Variable(Seq<char>),
    Temp(Seq<char>),
}

impl Clone for Operand {
    fn clone(&self) -> (r: Self)
        ensures
            r == *self,
    {
        match self {
            Operand::Immediate(v) => Operand::Immediate(*v),
            Operand::Variable(s) => Operand::Variable(s.clone()),
            Operand::Temp(s) => Operand::Temp(s.clone()),
        }
    }
}

impl View for Operand {
    type V = OperandV;

    open spec fn view(&self) -> OperandV {
        match self {
            Operand::Immediate(v) => OperandV::Immediate(*v as int),
            Operand::Variable(s) => OperandV::Variable(s@),
            Operand::Temp(s) => OperandV::Temp(s@),
        }
    }
}

/// One IR unit: a routine call, a binary operation writing a destination,
/// or an assignment to a global variable.
#[derive(Debug, PartialEq, Eq)]
pub enum CodeUnit {
    FuncCall { name: String, args: Vec<Operand> },
    Operation { op: Operation, lhs: Operand, rhs: Operand, dest: Operand },
    Assignment { name: String, value: Operand },
}

/// The mathematical value of a `CodeUnit`.
pub enum CodeUnitV {
    FuncCall { name: Seq<char>, args: Seq<OperandV> },
    Operation { op: Operation, lhs: OperandV, rhs: OperandV, dest: OperandV },
    Assignment { name: Seq<char>, value: OperandV },
}

impl View for CodeUnit {
    type V = CodeUnitV;

    open spec fn view(&self) -> CodeUnitV {
        match self {
            CodeUnit::FuncCall { name, args } => CodeUnitV::FuncCall {
                name: name@,
                args: args@.map(|i: int, o: Operand| o@),
            },
            CodeUnit::Operation { op, lhs, rhs, dest } => CodeUnitV::Operation {
                op: *op,
                lhs: lhs@,
                rhs: rhs@,
                dest: dest@,
            },
            CodeUnit::Assignment { name, value } => CodeUnitV::Assignment {
                name: name@,
                value: value@,
            },
        }
    }
}

/// The ordered IR of one compilation unit.
#[derive(Debug, PartialEq, Eq)]
pub struct CodeTree {
    pub units: Vec<CodeUnit>,
}

impl View for CodeTree {
    type V = Seq<CodeUnitV>;

    open spec fn view(&self) -> Seq<CodeUnitV> {
        self.units@.map(|i: int, u: CodeUnit| u@)
    }
}

impl CodeTree {
    fn new() -> (r: Self)
        ensures
            r@ =~= Seq::<CodeUnitV>::empty(),
    {
        CodeTree { units: Vec::new() }
    }
}

/// The name of the temporary with index `n`.
pub open spec fn temp_name_seq(n: int) -> Seq<char> {
    "_temp_"@ + dec_digits(n)
}

/// The operand a leaf lowers to.
pub open spec fn sp_lower_val(v: ValV) -> OperandV {
    match v {
        ValV::Var(name) => OperandV::Variable(name),
        ValV::V(x) => OperandV::Immediate(x),
    }
}

/// The number of operator nodes of an expression: one IR unit and one
/// temporary are made for each.
pub open spec fn op_count(e: ExprV) -> int
    decreases e,
{
    match e {
        ExprV::Val(_) => 0,
        ExprV::Op(l, _, r) => 1 + op_count(*l) + op_count(*r),
    }
}

/// The operators of an expression in post-order: children first, left to
/// right, then the node itself.
pub open spec fn post_order_ops(e: ExprV) -> Seq<Operation>
    decreases e,
{
    match e {
        ExprV::Val(_) => Seq::empty(),
        ExprV::Op(l, op, r) => post_order_ops(*l) + post_order_ops(*r) + seq![op],
    }
}

/// Lowering an expression with next temporary index `n`: the IR units
/// appended, the operand holding the result, and the next temporary index.
pub open spec fn sp_lower_expr(e: ExprV, n: int) -> (Seq<CodeUnitV>, OperandV, int)
    decreases e,
{
    match e {
        ExprV::Val(v) => (Seq::<CodeUnitV>::empty(), sp_lower_val(v), n),
        ExprV::Op(l, op, r) => {
            let (ul, ol, n1) = sp_lower_expr(*l, n);
            let (ur, orr, n2) = sp_lower_expr(*r, n1);
            let dest = OperandV::Temp(temp_name_seq(n2));
            (
                ul + ur + seq![CodeUnitV::Operation { op, lhs: ol, rhs: orr, dest }],
                dest,
                n2 + 1,
            )
        },
    }
}

/// The operator nodes of a whole program, statement by statement.
pub open spec fn ops_in_lines(lines: Seq<LineV>) -> int
    decreases lines.len(),
{
    if lines.len() == 0 {
        0
    } else {
        let rest = ops_in_lines(lines.drop_first());
        match lines[0] {
            LineV::Expr(e) => op_count(e) + rest,
            LineV::Call(_, e) => op_count(e) + rest,
            LineV::Decl(_, e) => op_count(e) + rest,
        }
    }
}

/// The IR of a whole program: statements in source order, each expression
/// lowered post-order; a call or declaration appends its own unit after the
/// units of its expression.
pub open spec fn sp_build_lines(lines: Seq<LineV>, n: int) -> Seq<CodeUnitV>
    decreases lines.len(),
{
    if lines.len() == 0 {
        Seq::empty()
    } else {
        match lines[0] {
            LineV::Expr(e) => {
                let (u, o, n1) = sp_lower_expr(e, n);
                u + sp_build_lines(lines.drop_first(), n1)
            },
            LineV::Call(f, e) => {
                let (u, o, n1) = sp_lower_expr(e, n);
                u + seq![CodeUnitV::FuncCall { name: f, args: seq![o] }] + sp_build_lines(
                    lines.drop_first(),
                    n1,
                )
            },
            LineV::Decl(v, e) => {
                let (u, o, n1) = sp_lower_expr(e, n);
                u + seq![CodeUnitV::Assignment { name: v, value: o }] + sp_build_lines(
                    lines.drop_first(),
                    n1,
                )
            },
        }
    }
}

/// Post-order traversal lists one operator per operator node.
pub proof fn lemma_post_order_len(e: ExprV)
    ensures
        post_order_ops(e).len() == op_count(e),
    decreases e,
{
    match e {
        ExprV::Val(_) => {},
        ExprV::Op(l, _, r) => {
            lemma_post_order_len(*l);
            lemma_post_order_len(*r);
        },
    }
}

pub proof fn lemma_op_count_nonneg(e: ExprV)
    ensures
        op_count(e) >= 0,
    decreases e,
{
    match e {
        ExprV::Val(_) => {},
        ExprV::Op(l, _, r) => {
            lemma_op_count_nonneg(*l);
            lemma_op_count_nonneg(*r);
        },
    }
}

pub proof fn lemma_ops_in_lines_nonneg(lines: Seq<LineV>)
    ensures
        ops_in_lines(lines) >= 0,
    decreases lines.len(),
{
    if lines.len() > 0 {
        lemma_ops_in_lines_nonneg(lines.drop_first());
        match lines[0] {
            LineV::Expr(e) => lemma_op_count_nonneg(e),
            LineV::Call(_, e) => lemma_op_count_nonneg(e),
            LineV::Decl(_, e) => lemma_op_count_nonneg(e),
        }
    }
}

/// Lowering consumes exactly one temporary index per operator node.
pub proof fn lemma_lower_count(e: ExprV, n: int)
    ensures
        sp_lower_expr(e, n).2 == n + op_count(e),
        sp_lower_expr(e, n).0.len() == op_count(e),
    decreases e,
{
    match e {
        ExprV::Val(_) => {},
        ExprV::Op(l, _, r) => {
            lemma_lower_count(*l, n);
            lemma_lower_count(*r, sp_lower_expr(*l, n).2);
        },
    }
}

/// Whether an IR unit is an operation.
pub open spec fn unit_is_op(u: CodeUnitV) -> bool {
    u is Operation
}

/// The operator of an operation unit.
pub open spec fn unit_op(u: CodeUnitV) -> Operation {
    match u {
        CodeUnitV::Operation { op, .. } => op,
        _ => arbitrary(),
    }
}

/// The destination of an operation unit.
pub open spec fn unit_dest(u: CodeUnitV) -> OperandV {
    match u {
        CodeUnitV::Operation { dest, .. } => dest,
        _ => arbitrary(),
    }
}

/// The IR of an expression is its post-order traversal: one operation unit
/// per operator node, in post order, with destinations numbered in order of
/// emission; the resulting operand is the leaf itself or the last
/// temporary.
pub proof fn lemma_lower_postorder(e: ExprV, n: int)
    ensures
        ({
            let (u, o, n2) = sp_lower_expr(e, n);
            &&& n2 == n + op_count(e)
            &&& u.len() == op_count(e)
            &&& forall|i: int|
                0 <= i < u.len() ==> unit_is_op(#[trigger] u[i]) && unit_op(u[i])
                    == post_order_ops(e)[i] && unit_dest(u[i]) == OperandV::Temp(
                    temp_name_seq(n + i),
                )
            &&& match e {
                ExprV::Val(v) => o == sp_lower_val(v),
                ExprV::Op(_, _, _) => o == OperandV::Temp(temp_name_seq(n + op_count(e) - 1)),
            }
        }),
    decreases e,
{
    lemma_lower_count(e, n);
    lemma_post_order_len(e);
    match e {
        ExprV::Val(_) => {},
        ExprV::Op(l, op, r) => {
            lemma_post_order_len(*l);
            lemma_post_order_len(*r);
            let (ul, ol, n1) = sp_lower_expr(*l, n);
            let (ur, orr, n2) = sp_lower_expr(*r, n1);
            lemma_lower_postorder(*l, n);
            lemma_lower_postorder(*r, n1);
            let u = sp_lower_expr(e, n).0;
            let p = post_order_ops(e);
            assert(forall|i: int| 0 <= i < ul.len() ==> p[i] == post_order_ops(*l)[i]);
            assert(forall|i: int|
                ul.len() <= i < ul.len() + ur.len() ==> p[i] == post_order_ops(*r)[
                    i - ul.len()
                ]);
        },
    }
}

/// Builds the IR, walking statements in source order and lowering each
/// expression post-order with a monotonically increasing temporary counter.
#[derive(Debug, PartialEq, Eq)]
pub struct CodeBuilder {
    pub inner: CodeTree,
    pub temp_name: usize,
}

impl CodeBuilder {
    /// The units built so far.
    pub open spec fn units(&self) -> Seq<CodeUnitV> {
        self.inner@
    }

    /// The next temporary index.
    pub open spec fn counter(&self) -> int {
        self.temp_name as int
    }

    /// A fresh builder: no units, temporary indices from zero.
    pub fn new() -> (r: Self)
        ensures
            r.units() =~= Seq::<CodeUnitV>::empty(),
            r.counter() == 0,
    {
        CodeBuilder { inner: CodeTree::new(), temp_name: 0 }
    }

    /// Makes the next temporary's name and advances the counter; a name is
    /// never reused.
    fn new_temp(&mut self) -> (r: String)
        requires
            old(self).counter() < usize::MAX,
        ensures
            r@ == temp_name_seq(old(self).counter()),
            final(self).counter() == old(self).counter() + 1,
            final(self).units() == old(self).units(),
    {
        let mut name = String::from_str("_temp_");
        name.append(u64_to_string(self.temp_name as u64).as_str());
        self.temp_name += 1;
        name
    }

    /// The name the next temporary will get.
    pub fn current_temp(&self) -> (r: String)
        ensures
            r@ == temp_name_seq(self.counter()),
    {
        let mut name = String::from_str("_temp_");
        name.append(u64_to_string(self.temp_name as u64).as_str());
        name
    }

    /// Lowers one expression post-order, appending its operation units and
    /// returning the operand that holds its value.
    fn lower_unit(&mut self, expr: &Expr) -> (r: Operand)
        requires
            old(self).counter() + op_count(expr_view(expr)) <= usize::MAX,
        ensures
            ({
                let (u, o, n1) = sp_lower_expr(expr_view(expr), old(self).counter());
                &&& final(self).units() =~= old(self).units() + u
                &&& final(self).counter() == n1
                &&& r@ == o
            }),
        decreases expr,
    {
        match expr {
            Expr::Val(v) => match v {
                Val::Var(name) => Operand::Variable(name.clone()),
                Val::V(val) => Operand::Immediate(*val),
            },
            Expr::Op(lhs, op, rhs) => {
                proof {
                    lemma_op_count_nonneg(expr_view(lhs));
                    lemma_op_count_nonneg(expr_view(rhs));
                    lemma_lower_count(expr_view(lhs), old(self).counter());
                    lemma_lower_count(expr_view(rhs), sp_lower_expr(
                        expr_view(lhs),
                        old(self).counter(),
                    ).2);
                }
                let l = self.lower_unit(lhs);
                let r = self.lower_unit(rhs);
                let res = self.new_temp();
                let dest = Operand::Temp(res.clone());
                let unit = CodeUnit::Operation { op: *op, lhs: l, rhs: r, dest };
                proof {
                    assert(self.inner.units@.push(unit).map(|i: int, u: CodeUnit| u@)
                        =~= self.inner.units@.map(|i: int, u: CodeUnit| u@).push(unit@));
                }
                self.inner.units.push(unit);
                Operand::Temp(res)
            },
        }
    }

    /// Builds the whole IR of a program: the exact unit sequence of the
    /// model `sp_build_lines`, from this builder's counter on.
    #[verifier::loop_isolation(false)]
    pub fn build(self, ast: &Ast) -> (r: CodeTree)
        requires
            self.counter() + ops_in_lines(ast@) <= usize::MAX,
        ensures
            r@ =~= self.units() + sp_build_lines(ast@, self.counter()),
    {
        let mut b = self;
        let lines = ast.lines();
        let n = lines.len();
        let ghost lv = ast@;
        proof {
            assert(lv.skip(0) =~= lv);
        }
        let mut i: usize = 0;
        while i < n
            invariant
                n == lv.len(),
                i <= n,
                b.units() + sp_build_lines(lv.skip(i as int), b.counter()) =~= self.units()
                    + sp_build_lines(lv, self.counter()),
                b.counter() + ops_in_lines(lv.skip(i as int)) <= usize::MAX,
            decreases n - i,
        {
            let ghost rest = lv.skip(i as int);
            proof {
                assert(rest[0] == lv[i as int]);
                assert(rest.drop_first() =~= lv.skip(i as int + 1));
                lemma_ops_in_lines_nonneg(rest.drop_first());
                match rest[0] {
                    LineV::Expr(e) => lemma_lower_count(e, b.counter()),
                    LineV::Call(_, e) => lemma_lower_count(e, b.counter()),
                    LineV::Decl(_, e) => lemma_lower_count(e, b.counter()),
                }
            }
            let line = &lines[i];
            match line {
                Line::Expr(e) => {
                    let _ = b.lower_unit(e);
                },
                Line::Call(f, e) => {
                    let arg = b.lower_unit(e);
                    let mut args: Vec<Operand> = Vec::new();
                    args.push(arg);
                    let unit = CodeUnit::FuncCall { name: f.clone(), args };
                    proof {
                        assert(unit@->FuncCall_args =~= seq![sp_lower_expr(
                            lv[i as int]->Call_1,
                            b.counter() - op_count(lv[i as int]->Call_1),
                        ).1]);
                        assert(b.inner.units@.push(unit).map(|k: int, u: CodeUnit| u@)
                            =~= b.inner.units@.map(|k: int, u: CodeUnit| u@).push(unit@));
                    }
                    b.inner.units.push(unit);
                },
                Line::Decl(v, e) => {
                    let val = b.lower_unit(e);
                    let unit = CodeUnit::Assignment { name: v.clone(), value: val };
                    proof {
                        assert(b.inner.units@.push(unit).map(|k: int, u: CodeUnit| u@)
                            =~= b.inner.units@.map(|k: int, u: CodeUnit| u@).push(unit@));
                    }
                    b.inner.units.push(unit);
                },
            }
            i += 1;
        }
        proof {
            assert(lv.skip(n as int) =~= Seq::<LineV>::empty());
        }
        b.inner
    }
}


/// Whether an operand may be read once the temporaries in `defined` have
/// been written.
pub open spec fn operand_ok(o: OperandV, defined: Set<Seq<char>>) -> bool {
    match o {
        OperandV::Temp(t) => defined.contains(t),
        _ => true,
    }
}

/// The temporaries written after these units run, starting from `defined`.
pub open spec fn defined_after(units: Seq<CodeUnitV>, defined: Set<Seq<char>>) -> Set<Seq<char>>
    decreases units.len(),
{
    if units.len() == 0 {
        defined
    } else {
        let d1 = match units[0] {
            CodeUnitV::Operation { dest: OperandV::Temp(t), .. } => defined.insert(t),
            _ => defined,
        };
        defined_after(units.drop_first(), d1)
    }
}

/// Well-formed IR: every temporary is written by an earlier operation
/// before it is read, no operation writes into an immediate, and every
/// call carries exactly one argument.
pub open spec fn ir_wf_from(units: Seq<CodeUnitV>, defined: Set<Seq<char>>) -> bool
    decreases units.len(),
{
    if units.len() == 0 {
        true
    } else {
        match units[0] {
            CodeUnitV::Operation { op, lhs, rhs, dest } => {
                &&& operand_ok(lhs, defined)
                &&& operand_ok(rhs, defined)
                &&& !(dest is Immediate)
                &&& match dest {
                    OperandV::Temp(t) => ir_wf_from(units.drop_first(), defined.insert(t)),
                    _ => ir_wf_from(units.drop_first(), defined),
                }
            },
            CodeUnitV::Assignment { name, value } => operand_ok(value, defined) && ir_wf_from(
                units.drop_first(),
                defined,
            ),
            CodeUnitV::FuncCall { name, args } => args.len() == 1 && operand_ok(args[0], defined)
                && ir_wf_from(units.drop_first(), defined),
        }
    }
}

/// Well-formed IR, from a clean start.
pub open spec fn ir_wf(units: Seq<CodeUnitV>) -> bool {
    ir_wf_from(units, Set::empty())
}

/// Well-formedness of a concatenation splits at the boundary.
pub proof fn lemma_wf_concat(a: Seq<CodeUnitV>, b: Seq<CodeUnitV>, defined: Set<Seq<char>>)
    ensures
        ir_wf_from(a + b, defined) == (ir_wf_from(a, defined) && ir_wf_from(
            b,
            defined_after(a, defined),
        )),
        defined_after(a + b, defined) == defined_after(b, defined_after(a, defined)),
    decreases a.len(),
{
    if a.len() == 0 {
        assert(a + b =~= b);
    } else {
        assert((a + b)[0] == a[0]);
        assert(a.drop_first() + b =~= (a + b).drop_first());
        let d1 = match a[0] {
            CodeUnitV::Operation { dest: OperandV::Temp(t), .. } => defined.insert(t),
            _ => defined,
        };
        lemma_wf_concat(a.drop_first(), b, d1);
    }
}

/// The defined set only grows.
pub proof fn lemma_defined_grows(units: Seq<CodeUnitV>, defined: Set<Seq<char>>)
    ensures
        defined.subset_of(defined_after(units, defined)),
    decreases units.len(),
{
    if units.len() > 0 {
        let d1 = match units[0] {
            CodeUnitV::Operation { dest: OperandV::Temp(t), .. } => defined.insert(t),
            _ => defined,
        };
        lemma_defined_grows(units.drop_first(), d1);
    }
}

/// Well-formedness is kept under a larger defined set.
pub proof fn lemma_wf_mono(units: Seq<CodeUnitV>, d1: Set<Seq<char>>, d2: Set<Seq<char>>)
    requires
        ir_wf_from(units, d1),
        d1.subset_of(d2),
    ensures
        ir_wf_from(units, d2),
        defined_after(units, d1).subset_of(defined_after(units, d2)),
    decreases units.len(),
{
    if units.len() > 0 {
        match units[0] {
            CodeUnitV::Operation { dest: OperandV::Temp(t), .. } => {
                lemma_wf_mono(units.drop_first(), d1.insert(t), d2.insert(t));
            },
            _ => {
                lemma_wf_mono(units.drop_first(), d1, d2);
            },
        }
    }
}

/// Lowering an expression yields well-formed units against any defined
/// set: each temporary it reads was written by one of its own earlier
/// units; its result operand is readable afterwards.
pub proof fn lemma_lower_wf(e: ExprV, n: int, defined: Set<Seq<char>>)
    ensures
        ({
            let (u, o, n2) = sp_lower_expr(e, n);
            &&& ir_wf_from(u, defined)
            &&& operand_ok(o, defined_after(u, defined))
            &&& defined.subset_of(defined_after(u, defined))
        }),
    decreases e,
{
    reveal_with_fuel(ir_wf_from, 3);
    reveal_with_fuel(defined_after, 3);
    let (u, o, n2) = sp_lower_expr(e, n);
    lemma_defined_grows(u, defined);
    match e {
        ExprV::Val(_) => {},
        ExprV::Op(l, op, r) => {
            let (ul, ol, n1) = sp_lower_expr(*l, n);
            let (ur, orr, nn2) = sp_lower_expr(*r, n1);
            let dest = OperandV::Temp(temp_name_seq(nn2));
            let unit = CodeUnitV::Operation { op, lhs: ol, rhs: orr, dest };
            lemma_lower_wf(*l, n, defined);
            let da = defined_after(ul, defined);
            lemma_lower_wf(*r, n1, da);
            let db = defined_after(ur, da);
            lemma_defined_grows(ur, da);
            assert(operand_ok(ol, db));
            assert(ir_wf_from(seq![unit], db)) by {
                assert(seq![unit][0] == unit);
                assert(seq![unit].drop_first() =~= Seq::<CodeUnitV>::empty());
            }
            lemma_wf_concat(ur, seq![unit], da);
            lemma_wf_concat(ul, ur + seq![unit], defined);
            assert(u =~= ul + (ur + seq![unit]));
            assert(defined_after(seq![unit], db) == db.insert(temp_name_seq(nn2))) by {
                assert(seq![unit].drop_first() =~= Seq::<CodeUnitV>::empty());
            }
            assert(operand_ok(o, defined_after(u, defined)));
        },
    }
}

/// The IR the builder makes is well-formed: writes precede reads, no
/// destination is an immediate, every call has one argument.
pub proof fn lemma_build_wf(lines: Seq<LineV>, n: int, defined: Set<Seq<char>>)
    ensures
        ir_wf_from(sp_build_lines(lines, n), defined),
    decreases lines.len(),
{
    reveal_with_fuel(ir_wf_from, 3);
    reveal_with_fuel(defined_after, 3);
    if lines.len() > 0 {
        match lines[0] {
            LineV::Expr(e) => {
                let (u, o, n1) = sp_lower_expr(e, n);
                lemma_lower_wf(e, n, defined);
                lemma_build_wf(lines.drop_first(), n1, defined_after(u, defined));
                lemma_wf_concat(u, sp_build_lines(lines.drop_first(), n1), defined);
            },
            LineV::Call(f, e) => {
                let (u, o, n1) = sp_lower_expr(e, n);
                let unit = CodeUnitV::FuncCall { name: f, args: seq![o] };
                lemma_lower_wf(e, n, defined);
                let da = defined_after(u, defined);
                assert(ir_wf_from(seq![unit], da)) by {
                    assert(seq![unit][0] == unit);
                    assert(seq![unit].drop_first() =~= Seq::<CodeUnitV>::empty());
                    assert(seq![o].len() == 1 && seq![o][0] == o);
                }
                lemma_wf_concat(seq![unit], sp_build_lines(lines.drop_first(), n1), da);
                lemma_build_wf(lines.drop_first(), n1, defined_after(seq![unit], da));
                lemma_wf_concat(u, seq![unit] + sp_build_lines(lines.drop_first(), n1), defined);
                assert(sp_build_lines(lines, n) =~= u + (seq![unit] + sp_build_lines(
                    lines.drop_first(),
                    n1,
                )));
            },
            LineV::Decl(v, e) => {
                let (u, o, n1) = sp_lower_expr(e, n);
                let unit = CodeUnitV::Assignment { name: v, value: o };
                lemma_lower_wf(e, n, defined);
                let da = defined_after(u, defined);
                assert(ir_wf_from(seq![unit], da)) by {
                    assert(seq![unit][0] == unit);
                    assert(seq![unit].drop_first() =~= Seq::<CodeUnitV>::empty());
                }
                lemma_wf_concat(seq![unit], sp_build_lines(lines.drop_first(), n1), da);
                lemma_build_wf(lines.drop_first(), n1, defined_after(seq![unit], da));
                lemma_wf_concat(u, seq![unit] + sp_build_lines(lines.drop_first(), n1), defined);
                assert(sp_build_lines(lines, n) =~= u + (seq![unit] + sp_build_lines(
                    lines.drop_first(),
                    n1,
                )));
            },
        }
    }
}


/// Temporary names are never reused: distinct counter values name
/// distinct temporaries.
pub proof fn lemma_temp_names_unique(m: int, n: int)
    requires
        m >= 0,
        n >= 0,
        m != n,
    ensures
        temp_name_seq(m) != temp_name_seq(n),
{
    if temp_name_seq(m) == temp_name_seq(n) {
        let p = "_temp_"@;
        assert(dec_digits(m) =~= temp_name_seq(m).subrange(
            p.len() as int,
            temp_name_seq(m).len() as int,
        ));
        assert(dec_digits(n) =~= temp_name_seq(n).subrange(
            p.len() as int,
            temp_name_seq(n).len() as int,
        ));
        crate::text::lemma_dec_digits_injective(m, n);
    }
}

} // verus!
