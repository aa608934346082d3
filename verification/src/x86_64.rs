//! The assembly emitter for x86-64: one forward pass over the IR that
//! allocates physical storage for temporaries and produces the instruction
//! stream, honouring the calling convention of the built-in and external
//! routines and the ABI's 16-byte stack alignment at every call. The model
//! `sp_emit_program` fixes the exact instruction sequence, or the exact
//! fatal inconsistency, for every IR sequence.

use vstd::prelude::*;
use vstd::string::*;
use crate::ast::Operation;
use crate::codegen::{
    CodeTree, CodeUnit, CodeUnitV, Operand, OperandV, defined_after, ir_wf, ir_wf_from,
    lemma_wf_concat,
};
use crate::backend::{BackendErr, BackendErrV};
use crate::regalloc::{
    Location, LocV, Reg, TempVarTrack, Vars, map_shift, map_drop, first_free, pool_reg,
    pool_reg_at, sp_vars_add,
};
use crate::text::{dec_digits, int_digits, u64_to_string, i64_to_string};

verus! {

/// A value an instruction reads: an immediate, a register, a variable's
/// memory cell, or a stack slot relative to the stack pointer.
#[derive(Debug, PartialEq, Eq)]
pub enum Src {
    Imm(i64),
    Reg(Reg),
    VarMem(String),
    StackMem(usize),
}

/// The mathematical value of a `Src`.
pub enum SrcV {
    Imm(int),
    Reg(Reg),
    VarMem(Seq<char>),
    StackMem(int),
}

impl View for Src {
    type V = SrcV;

    open spec fn view(&self) -> SrcV {
        match self {
            Src::Imm(v) => SrcV::Imm(*v as int),
            Src::Reg(r) => SrcV::Reg(*r),
            Src::VarMem(n) => SrcV::VarMem(n@),
            Src::StackMem(o) => SrcV::StackMem(*o as int),
        }
    }
}

/// One emitted instruction.
#[derive(Debug, PartialEq, Eq)]
pub enum Instr {
    /// `mov dst, src`
    MovToReg { dst: Reg, src: Src },
    /// `mov rax, qword [name]`
    MovRaxFromVarQ { name: String },
    /// `mov qword [name], src`
    MovToVarQ { name: String, src: Src },
    /// `mov loc, rax`
    StoreRax { loc: Location },
    /// `add|sub|imul rax, src`
    Alu { op: Operation, src: Src },
    /// `cqo`
    Cqo,
    /// `idiv rcx`
    IdivRcx,
    /// `mov rax, rdx`
    MovRaxRdx,
    /// `push reg`
    Push(Reg),
    /// `pop reg`
    Pop(Reg),
    /// `sub rsp, n`
    SubRsp(u64),
    /// `add rsp, n`
    AddRsp(u64),
    /// `mov rdi, format`
    MovRdiFormat,
    /// `xor rax, rax`
    XorRaxRax,
    /// `mov edi, 0`
    MovEdi0,
    /// `call name`
    CallNamed(String),
}

/// The mathematical value of an `Instr`.
pub enum InstrV {
    MovToReg { dst: Reg, src: SrcV },
    MovRaxFromVarQ { name: Seq<char> },
    MovToVarQ { name: Seq<char>, src: SrcV },
    StoreRax { loc: LocV },
    Alu { op: Operation, src: SrcV },
    Cqo,
    IdivRcx,
    MovRaxRdx,
    Push(Reg),
    Pop(Reg),
    SubRsp(int),
    AddRsp(int),
    MovRdiFormat,
    XorRaxRax,
    MovEdi0,
    CallNamed(Seq<char>),
}

impl View for Instr {
    type V = InstrV;

    open spec fn view(&self) -> InstrV {
        match self {
            Instr::MovToReg { dst, src } => InstrV::MovToReg { dst: *dst, src: src@ },
            Instr::MovRaxFromVarQ { name } => InstrV::MovRaxFromVarQ { name: name@ },
            Instr::MovToVarQ { name, src } => InstrV::MovToVarQ { name: name@, src: src@ },
            Instr::StoreRax { loc } => InstrV::StoreRax { loc: loc@ },
            Instr::Alu { op, src } => InstrV::Alu { op: *op, src: src@ },
            Instr::Cqo => InstrV::Cqo,
            Instr::IdivRcx => InstrV::IdivRcx,
            Instr::MovRaxRdx => InstrV::MovRaxRdx,
            Instr::Push(r) => InstrV::Push(*r),
            Instr::Pop(r) => InstrV::Pop(*r),
            Instr::SubRsp(n) => InstrV::SubRsp(*n as int),
            Instr::AddRsp(n) => InstrV::AddRsp(*n as int),
            Instr::MovRdiFormat => InstrV::MovRdiFormat,
            Instr::XorRaxRax => InstrV::XorRaxRax,
            Instr::MovEdi0 => InstrV::MovEdi0,
            Instr::CallNamed(n) => InstrV::CallNamed(n@),
        }
    }
}

/// How many bytes an instruction pushes onto the stack (negative: pops).
pub open spec fn instr_stack_delta(i: InstrV) -> int {
    match i {
        InstrV::Push(_) => 8,
        InstrV::Pop(_) => -8,
        InstrV::SubRsp(n) => n,
        InstrV::AddRsp(n) => -n,
        _ => 0,
    }
}

/// The net bytes pushed by the first `i` instructions.
pub open spec fn stack_net(s: Seq<InstrV>, i: int) -> int
    decreases i,
{
    if i <= 0 {
        0
    } else {
        stack_net(s, i - 1) + instr_stack_delta(s[i - 1])
    }
}

/// The alignment invariant: before every emitted call instruction, the net
/// bytes pushed since emission began (the tracked byte counter) are a
/// multiple of 16.
pub open spec fn calls_aligned(s: Seq<InstrV>, base: int) -> bool {
    forall|i: int|
        0 <= i < s.len() && (#[trigger] s[i]) is CallNamed ==> (base + stack_net(s, i)) % 16 == 0
}

/// The register's name in assembly text.
pub open spec fn reg_text(r: Reg) -> Seq<char> {
    match r {
        Reg::R8 => "r8"@,
        Reg::R9 => "r9"@,
        Reg::R10 => "r10"@,
        Reg::R11 => "r11"@,
        Reg::RDI => "rdi"@,
        Reg::RSI => "rsi"@,
        Reg::RCX => "rcx"@,
        Reg::RDX => "rdx"@,
        Reg::RAX => "rax"@,
    }
}

/// The text a source value takes in an instruction.
pub open spec fn src_text(s: SrcV) -> Seq<char> {
    match s {
        SrcV::Imm(v) => int_digits(v),
        SrcV::Reg(r) => reg_text(r),
        SrcV::VarMem(n) => "["@ + n + "]"@,
        SrcV::StackMem(o) => "[rsp + "@ + dec_digits(o) + "]"@,
    }
}

/// The text a location takes as a store destination.
pub open spec fn loc_text(l: LocV) -> Seq<char> {
    match l {
        LocV::Reg(r) => reg_text(r),
        LocV::Stack(o) => "[rsp + "@ + dec_digits(o) + "]"@,
    }
}

/// The mnemonic of an accumulator operation.
pub open spec fn alu_mnemonic(op: Operation) -> Seq<char> {
    match op {
        Operation::Mul => "imul"@,
        Operation::Sub => "sub"@,
        Operation::Add => "add"@,
        Operation::Div | Operation::Mod => Seq::empty(),
    }
}

/// The text of one instruction, without indentation.
pub open spec fn instr_text(i: InstrV) -> Seq<char> {
    match i {
        InstrV::MovToReg { dst, src } => "mov "@ + reg_text(dst) + ", "@ + src_text(src),
        InstrV::MovRaxFromVarQ { name } => "mov rax, qword ["@ + name + "]"@,
        InstrV::MovToVarQ { name, src } => "mov qword ["@ + name + "], "@ + src_text(src),
        InstrV::StoreRax { loc } => "mov "@ + loc_text(loc) + ", rax"@,
        InstrV::Alu { op, src } => alu_mnemonic(op) + " rax, "@ + src_text(src),
        InstrV::Cqo => "cqo"@,
        InstrV::IdivRcx => "idiv rcx"@,
        InstrV::MovRaxRdx => "mov rax, rdx"@,
        InstrV::Push(r) => "push "@ + reg_text(r),
        InstrV::Pop(r) => "pop "@ + reg_text(r),
        InstrV::SubRsp(n) => "sub rsp, "@ + dec_digits(n),
        InstrV::AddRsp(n) => "add rsp, "@ + dec_digits(n),
        InstrV::MovRdiFormat => "mov rdi, format"@,
        InstrV::XorRaxRax => "xor rax, rax"@,
        InstrV::MovEdi0 => "mov edi, 0"@,
        InstrV::CallNamed(n) => "call "@ + n,
    }
}

/// One instruction as an indented line.
pub open spec fn instr_line(i: InstrV) -> Seq<char> {
    "\t"@ + instr_text(i) + "\n"@
}

/// The instruction stream as text.
pub open spec fn render_instrs(s: Seq<InstrV>) -> Seq<char>
    decreases s.len(),
{
    if s.len() == 0 {
        Seq::empty()
    } else {
        render_instrs(s.drop_last()) + instr_line(s.last())
    }
}

/// The static-storage section: one reservation per variable, first-seen
/// order.
pub open spec fn render_vars(vs: Seq<Seq<char>>) -> Seq<char>
    decreases vs.len(),
{
    if vs.len() == 0 {
        Seq::empty()
    } else {
        render_vars(vs.drop_last()) + "\t"@ + vs.last() + " resq 1\n"@
    }
}

fn reg_str(r: Reg) -> (s: &'static str)
    ensures
        s@ == reg_text(r),
{
    match r {
        Reg::R8 => "r8",
        Reg::R9 => "r9",
        Reg::R10 => "r10",
        Reg::R11 => "r11",
        Reg::RDI => "rdi",
        Reg::RSI => "rsi",
        Reg::RCX => "rcx",
        Reg::RDX => "rdx",
        Reg::RAX => "rax",
    }
}

fn src_str(s: &Src) -> (r: String)
    ensures
        r@ == src_text(s@),
{
    match s {
        Src::Imm(v) => i64_to_string(*v),
        Src::Reg(rg) => String::from_str(reg_str(*rg)),
        Src::VarMem(n) => {
            let mut t = String::from_str("[");
            t.append(n.as_str());
            t.append("]");
            proof {
                assert(t@ =~= src_text(s@));
            }
            t
        },
        Src::StackMem(o) => {
            let mut t = String::from_str("[rsp + ");
            t.append(u64_to_string(*o as u64).as_str());
            t.append("]");
            proof {
                assert(t@ =~= src_text(s@));
            }
            t
        },
    }
}

fn loc_str(l: &Location) -> (r: String)
    ensures
        r@ == loc_text(l@),
{
    match l {
        Location::Reg(rg) => String::from_str(reg_str(*rg)),
        Location::Stack(o) => {
            let mut t = String::from_str("[rsp + ");
            t.append(u64_to_string(*o as u64).as_str());
            t.append("]");
            proof {
                assert(t@ =~= loc_text(l@));
            }
            t
        },
    }
}

fn instr_str(i: &Instr) -> (r: String)
    ensures
        r@ == instr_text(i@),
{
    match i {
        Instr::MovToReg { dst, src } => {
            let mut t = String::from_str("mov ");
            t.append(reg_str(*dst));
            t.append(", ");
            t.append(src_str(src).as_str());
            proof {
                assert(t@ =~= instr_text(i@));
            }
            t
        },
        Instr::MovRaxFromVarQ { name } => {
            let mut t = String::from_str("mov rax, qword [");
            t.append(name.as_str());
            t.append("]");
            proof {
                assert(t@ =~= instr_text(i@));
            }
            t
        },
        Instr::MovToVarQ { name, src } => {
            let mut t = String::from_str("mov qword [");
            t.append(name.as_str());
            t.append("], ");
            t.append(src_str(src).as_str());
            proof {
                assert(t@ =~= instr_text(i@));
            }
            t
        },
        Instr::StoreRax { loc } => {
            let mut t = String::from_str("mov ");
            t.append(loc_str(loc).as_str());
            t.append(", rax");
            proof {
                assert(t@ =~= instr_text(i@));
            }
            t
        },
        Instr::Alu { op, src } => {
            let mn: &'static str = match op {
                Operation::Mul => "imul",
                Operation::Sub => "sub",
                Operation::Add => "add",
                Operation::Div | Operation::Mod => "",
            };
            proof {
                reveal_strlit("");
                assert(mn@ == alu_mnemonic(*op));
            }
            let mut t = String::from_str(mn);
            t.append(" rax, ");
            t.append(src_str(src).as_str());
            proof {
                assert(t@ =~= instr_text(i@));
            }
            t
        },
        Instr::Cqo => String::from_str("cqo"),
        Instr::IdivRcx => String::from_str("idiv rcx"),
        Instr::MovRaxRdx => String::from_str("mov rax, rdx"),
        Instr::Push(rg) => {
            let mut t = String::from_str("push ");
            t.append(reg_str(*rg));
            proof {
                assert(t@ =~= instr_text(i@));
            }
            t
        },
        Instr::Pop(rg) => {
            let mut t = String::from_str("pop ");
            t.append(reg_str(*rg));
            proof {
                assert(t@ =~= instr_text(i@));
            }
            t
        },
        Instr::SubRsp(n) => {
            let mut t = String::from_str("sub rsp, ");
            t.append(u64_to_string(*n).as_str());
            proof {
                assert(t@ =~= instr_text(i@));
            }
            t
        },
        Instr::AddRsp(n) => {
            let mut t = String::from_str("add rsp, ");
            t.append(u64_to_string(*n).as_str());
            proof {
                assert(t@ =~= instr_text(i@));
            }
            t
        },
        Instr::MovRdiFormat => String::from_str("mov rdi, format"),
        Instr::XorRaxRax => String::from_str("xor rax, rax"),
        Instr::MovEdi0 => String::from_str("mov edi, 0"),
        Instr::CallNamed(n) => {
            let mut t = String::from_str("call ");
            t.append(n.as_str());
            proof {
                assert(t@ =~= instr_text(i@));
            }
            t
        },
    }
}

/// Renders the instruction stream, one indented line per instruction.
#[verifier::loop_isolation(false)]
fn render_instrs_exec(instrs: &Vec<Instr>) -> (r: String)
    ensures
        r@ == render_instrs(instrs@.map(|k: int, ins: Instr| ins@)),

{
    let ghost iv = instrs@.map(|k: int, ins: Instr| ins@);
    let mut out = String::new();
    let n = instrs.len();
    let mut i: usize = 0;
    while i < n
        invariant
            n == instrs@.len(),
            i <= n,
            out@ == render_instrs(iv.take(i as int)),
        decreases n - i,
    {
        out.append("\t");
        out.append(instr_str(&instrs[i]).as_str());
        out.append("\n");
        proof {
            assert(iv.take(i + 1).drop_last() =~= iv.take(i as int));
            assert(iv.take(i + 1).last() == iv[i as int]);
            assert(out@ =~= render_instrs(iv.take(i + 1)));
        }
        i += 1;
    }
    proof {
        assert(iv.take(n as int) =~= iv);
    }
    out
}

/// Renders the static-storage reservations, first-seen order.
#[verifier::loop_isolation(false)]
fn render_vars_exec(vars: &Vars) -> (r: String)
    ensures
        r@ == render_vars(vars@),

{
    let mut out = String::new();
    let n = vars.inner.len();
    let mut i: usize = 0;
    while i < n
        invariant
            n == vars.inner@.len(),
            i <= n,
            out@ == render_vars(vars@.take(i as int)),
        decreases n - i,
    {
        out.append("\t");
        out.append(vars.inner[i].as_str());
        out.append(" resq 1\n");
        proof {
            assert(vars@.take(i + 1).drop_last() =~= vars@.take(i as int));
            assert(vars@.take(i + 1).last() == vars@[i as int]);
            assert(out@ =~= render_vars(vars@.take(i + 1)));
        }
        i += 1;
    }
    proof {
        assert(vars@.take(n as int) =~= vars@);
    }
    out
}


/// The emitter's abstract state: live temporaries, pool occupancy, the
/// tracked byte counter, and the variable table.
pub struct EmitSt {
    pub temps: Map<Seq<char>, LocV>,
    pub used: Seq<bool>,
    pub pushes: int,
    pub vars: Seq<Seq<char>>,
}

/// The state right after 8 more bytes are pushed.
pub open spec fn st_push8(st: EmitSt) -> EmitSt {
    EmitSt {
        temps: map_shift(st.temps, 8),
        used: st.used,
        pushes: st.pushes + 8,
        vars: st.vars,
    }
}

/// The state right after 8 bytes are popped.
pub open spec fn st_pop8(st: EmitSt) -> EmitSt {
    EmitSt {
        temps: map_drop(st.temps, 8),
        used: st.used,
        pushes: st.pushes - 8,
        vars: st.vars,
    }
}

/// Whether every pool register is marked occupied.
pub open spec fn all_used_s(u: Seq<bool>) -> bool {
    forall|k: int| 0 <= k < 7 ==> u[k]
}

/// The fresh state emission starts from.
pub open spec fn sp_init_st() -> EmitSt {
    EmitSt {
        temps: Map::empty(),
        used: seq![false, false, false, false, false, false, false],
        pushes: 0,
        vars: Seq::empty(),
    }
}

/// The value an operand is read from: an immediate literally, a variable
/// from its memory cell, a temporary from its recorded location. A
/// temporary never seen is a fatal inconsistency.
pub open spec fn sp_src_of(o: OperandV, m: Map<Seq<char>, LocV>) -> Option<SrcV> {
    match o {
        OperandV::Immediate(v) => Some(SrcV::Imm(v)),
        OperandV::Variable(n) => Some(SrcV::VarMem(n)),
        OperandV::Temp(t) => if m.dom().contains(t) {
            Some(
                match m[t] {
                    LocV::Reg(r) => SrcV::Reg(r),
                    LocV::Stack(o2) => SrcV::StackMem(o2),
                },
            )
        } else {
            None
        },
    }
}

/// The diagnostic for an operand whose value cannot be read.
pub open spec fn sp_unknown(o: OperandV) -> BackendErrV {
    match o {
        OperandV::Temp(t) => BackendErrV::UnknownTemp(t),
        _ => BackendErrV::General,
    }
}

/// The operator applied to the accumulator and the right operand.
/// Add, subtract and multiply are one accumulator instruction. Divide and
/// modulo sign-extend into `rdx:rax`, save `rcx` if a live temporary owns
/// it, divide by the right operand moved into `rcx`, select remainder into
/// the accumulator for modulo, and restore `rcx`.
pub open spec fn sp_write_op(op: Operation, rhs: OperandV, st: EmitSt) -> Result<
    (Seq<InstrV>, EmitSt),
    BackendErrV,
> {
    match op {
        Operation::Add | Operation::Sub | Operation::Mul => match sp_src_of(rhs, st.temps) {
            None => Err(sp_unknown(rhs)),
            Some(src) => Ok((seq![InstrV::Alu { op, src }], st)),
        },
        Operation::Div | Operation::Mod => {
            let prcx = st.used[6];
            let st1 = if prcx {
                st_push8(st)
            } else {
                st
            };
            let head = seq![InstrV::Cqo] + if prcx {
                seq![InstrV::Push(Reg::RCX)]
            } else {
                Seq::empty()
            };
            match sp_src_of(rhs, st1.temps) {
                None => Err(sp_unknown(rhs)),
                Some(src) => {
                    let mid = seq![InstrV::MovToReg { dst: Reg::RCX, src }, InstrV::IdivRcx]
                        + if op is Mod {
                        seq![InstrV::MovRaxRdx]
                    } else {
                        Seq::empty()
                    };
                    let tail = if prcx {
                        seq![InstrV::Pop(Reg::RCX)]
                    } else {
                        Seq::empty()
                    };
                    let st2 = if prcx {
                        st_pop8(st1)
                    } else {
                        st1
                    };
                    Ok((head + mid + tail, st2))
                },
            }
        },
    }
}

/// The place a first-seen or known temporary gets: its recorded location;
/// else the first free pool register; else, with the pool exhausted, 8
/// bytes are reserved and the temporary sits at the new top of stack.
pub open spec fn sp_get_or_init(t: Seq<char>, st: EmitSt) -> (Seq<InstrV>, EmitSt, LocV) {
    if st.temps.dom().contains(t) {
        (Seq::empty(), st, st.temps[t])
    } else if all_used_s(st.used) {
        let st1 = st_push8(st);
        let st2 = EmitSt {
            temps: st1.temps.insert(t, LocV::Stack(0)),
            used: st1.used,
            pushes: st1.pushes,
            vars: st1.vars,
        };
        (seq![InstrV::SubRsp(8)], st2, LocV::Stack(0))
    } else {
        let f = first_free(st.used, 0);
        let st2 = EmitSt {
            temps: st.temps.insert(t, LocV::Reg(pool_reg(f))),
            used: st.used.update(f, true),
            pushes: st.pushes,
            vars: st.vars,
        };
        (Seq::empty(), st2, LocV::Reg(pool_reg(f)))
    }
}

/// Storing the accumulator into an operation's destination: a variable's
/// memory cell (registering the variable), or a temporary's location.
/// Writing into an immediate is a fatal inconsistency.
pub open spec fn sp_store_dest(dest: OperandV, st: EmitSt) -> Result<
    (Seq<InstrV>, EmitSt),
    BackendErrV,
> {
    match dest {
        OperandV::Variable(name) => Ok(
            (
                seq![InstrV::MovToVarQ { name, src: SrcV::Reg(Reg::RAX) }],
                EmitSt {
                    temps: st.temps,
                    used: st.used,
                    pushes: st.pushes,
                    vars: sp_vars_add(st.vars, name),
                },
            ),
        ),
        OperandV::Temp(t) => {
            let (pre, st1, loc) = sp_get_or_init(t, st);
            Ok((pre + seq![InstrV::StoreRax { loc }], st1))
        },
        OperandV::Immediate(_) => Err(BackendErrV::BadDestination),
    }
}

/// An operation unit: load the left operand into the accumulator, apply
/// the operator against the right operand, store into the destination.
pub open spec fn sp_emit_operation(
    op: Operation,
    lhs: OperandV,
    rhs: OperandV,
    dest: OperandV,
    st: EmitSt,
) -> Result<(Seq<InstrV>, EmitSt), BackendErrV> {
    match sp_src_of(lhs, st.temps) {
        None => Err(sp_unknown(lhs)),
        Some(sl) => match sp_write_op(op, rhs, st) {
            Err(e) => Err(e),
            Ok(r2) => match sp_store_dest(dest, r2.1) {
                Err(e) => Err(e),
                Ok(r3) => Ok(
                    (seq![InstrV::MovToReg { dst: Reg::RAX, src: sl }] + r2.0 + r3.0, r3.1),
                ),
            },
        },
    }
}

/// An assignment unit: the variable is registered, and the source value is
/// materialized and stored into its memory cell; an immediate is used
/// literally without a load.
pub open spec fn sp_emit_assignment(name: Seq<char>, value: OperandV, st: EmitSt) -> Result<
    (Seq<InstrV>, EmitSt),
    BackendErrV,
> {
    let stv = EmitSt {
        temps: st.temps,
        used: st.used,
        pushes: st.pushes,
        vars: sp_vars_add(st.vars, name),
    };
    match value {
        OperandV::Immediate(v) => Ok(
            (seq![InstrV::MovToVarQ { name, src: SrcV::Imm(v) }], stv),
        ),
        OperandV::Variable(vn) => Ok(
            (
                seq![
                    InstrV::MovRaxFromVarQ { name: vn },
                    InstrV::MovToVarQ { name, src: SrcV::Reg(Reg::RAX) },
                ],
                stv,
            ),
        ),
        OperandV::Temp(t) => if st.temps.dom().contains(t) {
            match st.temps[t] {
                LocV::Reg(r) => Ok((seq![InstrV::MovToVarQ { name, src: SrcV::Reg(r) }], stv)),
                LocV::Stack(o) => Ok(
                    (
                        seq![
                            InstrV::MovToReg { dst: Reg::RAX, src: SrcV::StackMem(o) },
                            InstrV::MovToVarQ { name, src: SrcV::Reg(Reg::RAX) },
                        ],
                        stv,
                    ),
                ),
            }
        } else {
            Err(BackendErrV::UnknownTemp(t))
        },
    }
}

/// The process-termination sequence: enforce alignment, then call the
/// termination routine.
pub open spec fn sp_exit_seq(st: EmitSt) -> (Seq<InstrV>, EmitSt) {
    let pad = st.pushes % 16 != 0;
    let st1 = if pad {
        st_push8(st)
    } else {
        st
    };
    let head = if pad {
        seq![InstrV::SubRsp(8)]
    } else {
        Seq::empty()
    };
    (head + seq![InstrV::MovEdi0, InstrV::CallNamed("exit"@)], st1)
}

/// The built-in formatted-output sequence: save the argument registers
/// that hold live temporaries, pad the stack to 16-byte alignment, place
/// the argument and the format string, call, then unwind the padding and
/// restore the saved registers.
pub open spec fn sp_printf_seq(arg: OperandV, st: EmitSt) -> Result<
    (Seq<InstrV>, EmitSt),
    BackendErrV,
> {
    let prsi = st.used[5];
    let st1 = if prsi {
        st_push8(st)
    } else {
        st
    };
    let s1 = if prsi {
        seq![InstrV::Push(Reg::RSI)]
    } else {
        Seq::empty()
    };
    let prdi = st1.used[4];
    let st2 = if prdi {
        st_push8(st1)
    } else {
        st1
    };
    let s2 = if prdi {
        seq![InstrV::Push(Reg::RDI)]
    } else {
        Seq::empty()
    };
    let pad = st2.pushes % 16 != 0;
    let st3 = if pad {
        st_push8(st2)
    } else {
        st2
    };
    let s3 = if pad {
        seq![InstrV::SubRsp(8)]
    } else {
        Seq::empty()
    };
    match sp_src_of(arg, st3.temps) {
        None => Err(sp_unknown(arg)),
        Some(src) => {
            let s4 = seq![
                InstrV::MovToReg { dst: Reg::RSI, src },
                InstrV::MovRdiFormat,
                InstrV::XorRaxRax,
                InstrV::CallNamed("printf"@),
            ];
            let s5 = if pad {
                seq![InstrV::AddRsp(8)]
            } else {
                Seq::empty()
            };
            let st4 = if pad {
                st_pop8(st3)
            } else {
                st3
            };
            let s6 = if prdi {
                seq![InstrV::Pop(Reg::RDI)]
            } else {
                Seq::empty()
            };
            let st5 = if prdi {
                st_pop8(st4)
            } else {
                st4
            };
            let s7 = if prsi {
                seq![InstrV::Pop(Reg::RSI)]
            } else {
                Seq::empty()
            };
            let st6 = if prsi {
                st_pop8(st5)
            } else {
                st5
            };
            Ok((s1 + s2 + s3 + s4 + s5 + s6 + s7, st6))
        },
    }
}

/// An external call: save the argument register if a live temporary owns
/// it, pad the stack to alignment, place the argument, call, then unwind
/// the padding and restore.
pub open spec fn sp_external_seq(fname: Seq<char>, arg: OperandV, st: EmitSt) -> Result<
    (Seq<InstrV>, EmitSt),
    BackendErrV,
> {
    let prdi = st.used[4];
    let st1 = if prdi {
        st_push8(st)
    } else {
        st
    };
    let s1 = if prdi {
        seq![InstrV::Push(Reg::RDI)]
    } else {
        Seq::empty()
    };
    let pad = st1.pushes % 16 != 0;
    let st2 = if pad {
        st_push8(st1)
    } else {
        st1
    };
    let s2 = if pad {
        seq![InstrV::SubRsp(8)]
    } else {
        Seq::empty()
    };
    match sp_src_of(arg, st2.temps) {
        None => Err(sp_unknown(arg)),
        Some(src) => {
            let s3 = seq![InstrV::MovToReg { dst: Reg::RDI, src }, InstrV::CallNamed(fname)];
            let s4 = if pad {
                seq![InstrV::AddRsp(8)]
            } else {
                Seq::empty()
            };
            let st3 = if pad {
                st_pop8(st2)
            } else {
                st2
            };
            let s5 = if prdi {
                seq![InstrV::Pop(Reg::RDI)]
            } else {
                Seq::empty()
            };
            let st4 = if prdi {
                st_pop8(st3)
            } else {
                st3
            };
            Ok((s1 + s2 + s3 + s4 + s5, st4))
        },
    }
}

/// A call unit: the name `print` resolves to the formatted-output
/// built-in; `exit` to the termination built-in; any other name is an
/// external routine taking one argument.
pub open spec fn sp_emit_call(name: Seq<char>, args: Seq<OperandV>, st: EmitSt) -> Result<
    (Seq<InstrV>, EmitSt),
    BackendErrV,
> {
    if args.len() != 1 {
        Err(BackendErrV::General)
    } else {
        let fname = if name == "print"@ {
            "printf"@
        } else {
            name
        };
        if fname == "printf"@ {
            sp_printf_seq(args[0], st)
        } else if fname == "exit"@ {
            Ok(sp_exit_seq(st))
        } else {
            sp_external_seq(fname, args[0], st)
        }
    }
}

/// One IR unit's emission.
pub open spec fn sp_emit_unit(u: CodeUnitV, st: EmitSt) -> Result<
    (Seq<InstrV>, EmitSt),
    BackendErrV,
> {
    match u {
        CodeUnitV::FuncCall { name, args } => sp_emit_call(name, args, st),
        CodeUnitV::Operation { op, lhs, rhs, dest } => sp_emit_operation(op, lhs, rhs, dest, st),
        CodeUnitV::Assignment { name, value } => sp_emit_assignment(name, value, st),
    }
}

/// The whole forward pass over the IR.
pub open spec fn sp_emit_units(units: Seq<CodeUnitV>, st: EmitSt) -> Result<
    (Seq<InstrV>, EmitSt),
    BackendErrV,
>
    decreases units.len(),
{
    if units.len() == 0 {
        Ok((Seq::empty(), st))
    } else {
        match sp_emit_unit(units[0], st) {
            Err(e) => Err(e),
            Ok(r1) => match sp_emit_units(units.drop_first(), r1.1) {
                Err(e) => Err(e),
                Ok(r2) => Ok((r1.0 + r2.0, r2.1)),
            },
        }
    }
}

/// Emission of a whole program: the IR units from a fresh state, then the
/// unconditional termination sequence. The result is the instruction body
/// and the variable table in first-seen order.
pub open spec fn sp_emit_program(units: Seq<CodeUnitV>) -> Result<
    (Seq<InstrV>, Seq<Seq<char>>),
    BackendErrV,
> {
    match sp_emit_units(units, sp_init_st()) {
        Err(e) => Err(e),
        Ok(r) => {
            let fin = sp_exit_seq(r.1);
            Ok((r.0 + fin.0, r.1.vars))
        },
    }
}

/// The full assembly listing: data and text headers, the entry point with
/// its alignment prologue, the instruction body, and the static-storage
/// section.
pub open spec fn sp_render_listing(body: Seq<InstrV>, vars: Seq<Seq<char>>) -> Seq<char> {
    "section .data
	format db \"%ld\", 10, 0
section .text
	global main
	extern printf
	extern exit

main:
"@
        + "	sub rsp, 8
"@ + render_instrs(body) + "
section .bss
"@ + render_vars(vars)
        + "
section .note.GNU-stack noalloc noexec nowrite progbits"@
}


/// The assembly emitter: the instruction stream built so far and the two
/// mutable tables it threads.
pub struct AsmWriter {
    pub out: Vec<Instr>,
    pub temps: TempVarTrack,
    pub vars: Vars,
}

impl AsmWriter {
    /// The instructions emitted so far.
    pub open spec fn outv(&self) -> Seq<InstrV> {
        self.out@.map(|k: int, ins: Instr| ins@)
    }

    /// The abstract emitter state.
    pub open spec fn st(&self) -> EmitSt {
        EmitSt {
            temps: self.temps.model(),
            used: self.temps.used(),
            pushes: self.temps.pushes(),
            vars: self.vars@,
        }
    }

    /// Well-formedness of the allocation context.
    pub open spec fn wf(&self) -> bool {
        self.temps.wf()
    }

    /// A fresh emitter.
    pub fn new() -> (r: Self)
        ensures
            r.wf(),
            r.outv() =~= Seq::<InstrV>::empty(),
            r.st() =~= sp_init_st(),
    {
        let r = AsmWriter {
            out: Vec::new(),
            temps: TempVarTrack::default(),
            vars: Vars::default(),
        };
        proof {
            assert(r.temps.used() =~= sp_init_st().used);
        }
        r
    }

    /// Appends one instruction.
    fn emit(&mut self, ins: Instr)
        ensures
            final(self).outv() =~= old(self).outv().push(ins@),
            final(self).temps == old(self).temps,
            final(self).vars == old(self).vars,
            final(self).st() == old(self).st(),
            final(self).wf() == old(self).wf(),
    {
        proof {
            assert(self.out@.push(ins).map(|k: int, i2: Instr| i2@) =~= self.out@.map(
                |k: int, i2: Instr| i2@,
            ).push(ins@));
        }
        self.out.push(ins);
    }

    /// Reads an operand's value: the location of a temporary, the memory
    /// cell of a variable, an immediate literally.
    fn operand_src(&self, o: &Operand) -> (r: Result<Src, BackendErr>)
        requires
            self.wf(),
        ensures
            match r {
                Ok(s) => sp_src_of(o@, self.st().temps) == Some(s@),
                Err(e) => sp_src_of(o@, self.st().temps) is None && e@ == sp_unknown(o@),
            },
    {
        match o {
            Operand::Immediate(v) => Ok(Src::Imm(*v)),
            Operand::Variable(n) => Ok(Src::VarMem(n.clone())),
            Operand::Temp(t) => match self.temps.get(t.as_str()) {
                Some(Location::Reg(r2)) => Ok(Src::Reg(r2)),
                Some(Location::Stack(s)) => Ok(Src::StackMem(s)),
                None => Err(BackendErr::UnknownTemp(t.clone())),
            },
        }
    }

    /// Applies the operator to the accumulator: one instruction for add,
    /// subtract and multiply; the sign-extend/divide/select sequence for
    /// divide and modulo, saving and restoring `rcx` around it when a live
    /// temporary owns it.
    fn write_op(&mut self, op: Operation, rhs: &Operand) -> (r: Result<(), BackendErr>)
        requires
            old(self).wf(),
            old(self).st().pushes + 16 <= usize::MAX,
        ensures
            match r {
                Ok(_) => {
                    &&& final(self).wf()
                    &&& sp_write_op(op, rhs@, old(self).st()) matches Ok(p)
                    &&& final(self).outv() =~= old(self).outv() + sp_write_op(
                        op,
                        rhs@,
                        old(self).st(),
                    )->Ok_0.0
                    &&& final(self).st() =~= sp_write_op(op, rhs@, old(self).st())->Ok_0.1
                    &&& final(self).vars == old(self).vars
                },
                Err(e) => sp_write_op(op, rhs@, old(self).st()) matches Err(ev) && e@ == ev,
            },
    {
        let is_divmod = match op {
            Operation::Div | Operation::Mod => true,
            _ => false,
        };
        if !is_divmod {
            let src = match self.operand_src(rhs) {
                Ok(s) => s,
                Err(e) => {
                    return Err(e);
                },
            };
            self.emit(Instr::Alu { op, src });
            return Ok(());
        }
        self.emit(Instr::Cqo);
        let prcx = self.temps.is_used(Reg::RCX);
        if prcx {
            self.emit(Instr::Push(Reg::RCX));
            self.temps.inc_stack(8);
        }
        let src = match self.operand_src(rhs) {
            Ok(s) => s,
            Err(e) => {
                return Err(e);
            },
        };
        self.emit(Instr::MovToReg { dst: Reg::RCX, src });
        self.emit(Instr::IdivRcx);
        let is_mod = match op {
            Operation::Mod => true,
            _ => false,
        };
        if is_mod {
            self.emit(Instr::MovRaxRdx);
        }
        if prcx {
            self.emit(Instr::Pop(Reg::RCX));
            self.temps.dec_stack(8);
        }
        proof {
            assert(final(self).outv() =~= old(self).outv() + sp_write_op(
                op,
                rhs@,
                old(self).st(),
            )->Ok_0.0);
            assert(final(self).st() =~= sp_write_op(op, rhs@, old(self).st())->Ok_0.1);
        }
        Ok(())
    }

    /// The location of a destination temporary, allocating on first sight:
    /// the first free pool register, or a freshly reserved stack slot when
    /// the pool is exhausted.
    fn get_or_init_temp(&mut self, t: &String) -> (loc: Location)
        requires
            old(self).wf(),
            old(self).st().pushes + 8 <= usize::MAX,
        ensures
            final(self).wf(),
            final(self).outv() =~= old(self).outv() + sp_get_or_init(t@, old(self).st()).0,
            final(self).st() =~= sp_get_or_init(t@, old(self).st()).1,
            loc@ == sp_get_or_init(t@, old(self).st()).2,
            final(self).vars == old(self).vars,
            final(self).st().pushes <= old(self).st().pushes + 8,
    {
        let existing = self.temps.get(t.as_str());
        match existing {
            Some(loc) => {
                proof {
                    assert(final(self).outv() =~= old(self).outv() + sp_get_or_init(
                        t@,
                        old(self).st(),
                    ).0);
                }
                loc
            },
            None => {
                let full = self.temps.all_in_use();
                proof {
                    crate::regalloc::lemma_first_free_bounds(self.temps.used(), 0);
                    if full {
                        assert(first_free(self.temps.used(), 0) == 7) by {
                            let f = first_free(self.temps.used(), 0);
                            if f < 7 {
                                assert(!self.temps.used()[f]);
                            }
                        }
                    } else {
                        assert(first_free(self.temps.used(), 0) < 7) by {
                            let f = first_free(self.temps.used(), 0);
                            if f == 7 {
                                let k = choose|k: int| 0 <= k < 7 && !self.temps.used()[k];
                                assert(self.temps.used()[k]);
                            }
                        }
                    }
                }
                if full {
                    self.emit(Instr::SubRsp(8));
                    self.temps.inc_stack(8);
                    self.temps.add(t.clone());
                    proof {
                        assert(final(self).outv() =~= old(self).outv() + sp_get_or_init(
                            t@,
                            old(self).st(),
                        ).0);
                        assert(final(self).st() =~= sp_get_or_init(t@, old(self).st()).1);
                    }
                    Location::Stack(0)
                } else {
                    let idx = first_free_at(&self.temps);
                    let r2 = pool_reg_at(idx);
                    self.temps.add(t.clone());
                    proof {
                        assert(final(self).outv() =~= old(self).outv() + sp_get_or_init(
                            t@,
                            old(self).st(),
                        ).0);
                        assert(final(self).st() =~= sp_get_or_init(t@, old(self).st()).1);
                    }
                    Location::Reg(r2)
                }
            },
        }
    }

    /// Stores the accumulator into an operation's destination.
    fn store_dest(&mut self, dest: &Operand) -> (r: Result<(), BackendErr>)
        requires
            old(self).wf(),
            old(self).st().pushes + 8 <= usize::MAX,
        ensures
            match r {
                Ok(_) => {
                    &&& final(self).wf()
                    &&& sp_store_dest(dest@, old(self).st()) matches Ok(p)
                    &&& final(self).outv() =~= old(self).outv() + sp_store_dest(
                        dest@,
                        old(self).st(),
                    )->Ok_0.0
                    &&& final(self).st() =~= sp_store_dest(dest@, old(self).st())->Ok_0.1
                    &&& final(self).st().pushes <= old(self).st().pushes + 8
                },
                Err(e) => sp_store_dest(dest@, old(self).st()) matches Err(ev) && e@ == ev,
            },
    {
        match dest {
            Operand::Variable(name) => {
                self.emit(Instr::MovToVarQ { name: name.clone(), src: Src::Reg(Reg::RAX) });
                self.vars.add(name.clone());
                Ok(())
            },
            Operand::Temp(t) => {
                let loc = self.get_or_init_temp(t);
                self.emit(Instr::StoreRax { loc });
                proof {
                    assert(final(self).outv() =~= old(self).outv() + sp_store_dest(
                        dest@,
                        old(self).st(),
                    )->Ok_0.0);
                }
                Ok(())
            },
            Operand::Immediate(_) => Err(BackendErr::BadDestination),
        }
    }
}

/// The index the next register allocation would take; a helper for
/// reporting the chosen register.
fn first_free_at(t: &TempVarTrack) -> (r: usize)
    requires
        t.wf(),
        !crate::regalloc::TempVarTrack::all_used(t),
    ensures
        r == first_free(t.used(), 0),
        r < 7,
{
    let mut i: usize = 0;
    loop
        invariant
            t.wf(),
            !t.all_used(),
            i <= 7,
            forall|j: int| 0 <= j < i ==> t.used()[j],
        decreases 7 - i,
    {
        proof {
            crate::regalloc::lemma_first_free_bounds(t.used(), 0);
            if i == 7 {
                let k = choose|k: int| 0 <= k < 7 && !t.used()[k];
                assert(t.used()[k]);
            }
        }
        if !t.usage[i] {
            proof {
                assert(first_free(t.used(), 0) == i) by {
                    let f = first_free(t.used(), 0);
                    if f < i {
                        assert(t.used()[f]);
                    } else if f > i {
                        assert(t.used()[i as int]);
                    }
                }
            }
            return i;
        }
        i += 1;
    }
}


impl AsmWriter {
    /// Emits one operation unit: load the left operand into the
    /// accumulator, apply the operator, store into the destination.
    fn emit_operation(
        &mut self,
        op: Operation,
        lhs: &Operand,
        rhs: &Operand,
        dest: &Operand,
    ) -> (r: Result<(), BackendErr>)
        requires
            old(self).wf(),
            old(self).st().pushes + 32 <= usize::MAX,
        ensures
            match r {
                Ok(_) => {
                    &&& final(self).wf()
                    &&& sp_emit_operation(op, lhs@, rhs@, dest@, old(self).st()) matches Ok(p)
                    &&& final(self).outv() =~= old(self).outv() + sp_emit_operation(
                        op,
                        lhs@,
                        rhs@,
                        dest@,
                        old(self).st(),
                    )->Ok_0.0
                    &&& final(self).st() =~= sp_emit_operation(
                        op,
                        lhs@,
                        rhs@,
                        dest@,
                        old(self).st(),
                    )->Ok_0.1
                    &&& final(self).st().pushes <= old(self).st().pushes + 16
                },
                Err(e) => sp_emit_operation(op, lhs@, rhs@, dest@, old(self).st()) matches Err(ev)
                    && e@ == ev,
            },
    {
        let sl = match self.operand_src(lhs) {
            Ok(s) => s,
            Err(e) => {
                return Err(e);
            },
        };
        self.emit(Instr::MovToReg { dst: Reg::RAX, src: sl });
        match self.write_op(op, rhs) {
            Ok(_) => {},
            Err(e) => {
                return Err(e);
            },
        }
        match self.store_dest(dest) {
            Ok(_) => {},
            Err(e) => {
                return Err(e);
            },
        }
        proof {
            assert(final(self).outv() =~= old(self).outv() + sp_emit_operation(
                op,
                lhs@,
                rhs@,
                dest@,
                old(self).st(),
            )->Ok_0.0);
        }
        Ok(())
    }

    /// Emits one assignment unit: register the variable, materialize the
    /// source value, store it into the variable's memory cell.
    fn emit_assignment(&mut self, name: &String, value: &Operand) -> (r: Result<(), BackendErr>)
        requires
            old(self).wf(),
        ensures
            match r {
                Ok(_) => {
                    &&& final(self).wf()
                    &&& sp_emit_assignment(name@, value@, old(self).st()) matches Ok(p)
                    &&& final(self).outv() =~= old(self).outv() + sp_emit_assignment(
                        name@,
                        value@,
                        old(self).st(),
                    )->Ok_0.0
                    &&& final(self).st() =~= sp_emit_assignment(
                        name@,
                        value@,
                        old(self).st(),
                    )->Ok_0.1
                    &&& final(self).st().pushes == old(self).st().pushes
                },
                Err(e) => sp_emit_assignment(name@, value@, old(self).st()) matches Err(ev) && e@
                    == ev,
            },
    {
        self.vars.add(name.clone());
        let reg = match self.operand_src_loaded(value) {
            Ok(s) => s,
            Err(e) => {
                return Err(e);
            },
        };
        self.emit(Instr::MovToVarQ { name: name.clone(), src: reg });
        proof {
            assert(final(self).outv() =~= old(self).outv() + sp_emit_assignment(
                name@,
                value@,
                old(self).st(),
            )->Ok_0.0);
            assert(final(self).st() =~= sp_emit_assignment(
                name@,
                value@,
                old(self).st(),
            )->Ok_0.1);
        }
        Ok(())
    }

    /// Materializes an operand for an assignment: an immediate stands as
    /// it is; a variable or stack-resident temporary is first loaded into
    /// the accumulator; a register-resident temporary stands as its
    /// register.
    fn operand_src_loaded(&mut self, o: &Operand) -> (r: Result<Src, BackendErr>)
        requires
            old(self).wf(),
        ensures
            final(self).wf(),
            final(self).temps == old(self).temps,
            final(self).vars == old(self).vars,
            final(self).st() == old(self).st(),
            match r {
                Ok(s) => match o@ {
                    OperandV::Immediate(v) => s@ == SrcV::Imm(v) && final(self).outv() =~= old(
                        self,
                    ).outv(),
                    OperandV::Variable(vn) => s@ == SrcV::Reg(Reg::RAX) && final(self).outv()
                        =~= old(self).outv().push(InstrV::MovRaxFromVarQ { name: vn }),
                    OperandV::Temp(t) => {
                        &&& old(self).st().temps.dom().contains(t)
                        &&& match old(self).st().temps[t] {
                            LocV::Reg(rg) => s@ == SrcV::Reg(rg) && final(self).outv() =~= old(
                                self,
                            ).outv(),
                            LocV::Stack(off) => s@ == SrcV::Reg(Reg::RAX) && final(self).outv()
                                =~= old(self).outv().push(
                                InstrV::MovToReg { dst: Reg::RAX, src: SrcV::StackMem(off) },
                            ),
                        }
                    },
                },
                Err(e) => {
                    &&& o@ matches OperandV::Temp(t)
                    &&& !old(self).st().temps.dom().contains(o@->Temp_0)
                    &&& e@ == sp_unknown(o@)
                    &&& final(self).outv() =~= old(self).outv()
                },
            },
    {
        match o {
            Operand::Immediate(v) => Ok(Src::Imm(*v)),
            Operand::Variable(vn) => {
                self.emit(Instr::MovRaxFromVarQ { name: vn.clone() });
                Ok(Src::Reg(Reg::RAX))
            },
            Operand::Temp(t) => match self.temps.get(t.as_str()) {
                Some(Location::Reg(rg)) => Ok(Src::Reg(rg)),
                Some(Location::Stack(off)) => {
                    self.emit(Instr::MovToReg { dst: Reg::RAX, src: Src::StackMem(off) });
                    Ok(Src::Reg(Reg::RAX))
                },
                None => Err(BackendErr::UnknownTemp(t.clone())),
            },
        }
    }

    /// Emits one call unit, resolving built-ins and enforcing the ABI's
    /// 16-byte alignment at the call instruction.
    #[verifier::rlimit(100)]
    fn emit_call(&mut self, name: &String, args: &Vec<Operand>) -> (r: Result<(), BackendErr>)
        requires
            old(self).wf(),
            old(self).st().pushes + 32 <= usize::MAX,
        ensures
            match r {
                Ok(_) => {
                    &&& final(self).wf()
                    &&& sp_emit_call(
                        name@,
                        args@.map(|k: int, a: Operand| a@),
                        old(self).st(),
                    ) matches Ok(p)
                    &&& final(self).outv() =~= old(self).outv() + sp_emit_call(
                        name@,
                        args@.map(|k: int, a: Operand| a@),
                        old(self).st(),
                    )->Ok_0.0
                    &&& final(self).st() =~= sp_emit_call(
                        name@,
                        args@.map(|k: int, a: Operand| a@),
                        old(self).st(),
                    )->Ok_0.1
                    &&& final(self).st().pushes <= old(self).st().pushes + 16
                },
                Err(e) => sp_emit_call(name@, args@.map(|k: int, a: Operand| a@), old(self).st())
                    matches Err(ev) && e@ == ev,
            },
    {
        let ghost argsv = args@.map(|k: int, a: Operand| a@);
        if args.len() != 1 {
            return Err(BackendErr::General);
        }
        proof {
            assert(argsv[0] == args@[0]@);
        }
        let is_print = crate::text::str_eq(name.as_str(), "print");
        let fname: String = if is_print {
            String::from_str("printf")
        } else {
            name.clone()
        };
        if crate::text::str_eq(fname.as_str(), "printf") {
            let prsi = self.temps.is_used(Reg::RSI);
            if prsi {
                self.emit(Instr::Push(Reg::RSI));
                self.temps.inc_stack(8);
            }
            let prdi = self.temps.is_used(Reg::RDI);
            if prdi {
                self.emit(Instr::Push(Reg::RDI));
                self.temps.inc_stack(8);
            }
            let pad = !self.temps.stack_aligned();
            if pad {
                self.emit(Instr::SubRsp(8));
                self.temps.inc_stack(8);
            }
            let src = match self.operand_src(&args[0]) {
                Ok(s) => s,
                Err(e) => {
                    return Err(e);
                },
            };
            self.emit(Instr::MovToReg { dst: Reg::RSI, src });
            self.emit(Instr::MovRdiFormat);
            self.emit(Instr::XorRaxRax);
            self.emit(Instr::CallNamed(String::from_str("printf")));
            if pad {
                self.emit(Instr::AddRsp(8));
                self.temps.dec_stack(8);
            }
            if prdi {
                self.emit(Instr::Pop(Reg::RDI));
                self.temps.dec_stack(8);
            }
            if prsi {
                self.emit(Instr::Pop(Reg::RSI));
                self.temps.dec_stack(8);
            }
            proof {
                assert(final(self).outv() =~= old(self).outv() + sp_emit_call(
                    name@,
                    argsv,
                    old(self).st(),
                )->Ok_0.0);
                assert(final(self).st() =~= sp_emit_call(
                    name@,
                    argsv,
                    old(self).st(),
                )->Ok_0.1);
            }
            Ok(())
        } else if crate::text::str_eq(fname.as_str(), "exit") {
            let pad = !self.temps.stack_aligned();
            if pad {
                self.emit(Instr::SubRsp(8));
                self.temps.inc_stack(8);
            }
            self.emit(Instr::MovEdi0);
            self.emit(Instr::CallNamed(String::from_str("exit")));
            proof {
                assert(final(self).outv() =~= old(self).outv() + sp_emit_call(
                    name@,
                    argsv,
                    old(self).st(),
                )->Ok_0.0);
                assert(final(self).st() =~= sp_emit_call(
                    name@,
                    argsv,
                    old(self).st(),
                )->Ok_0.1);
            }
            Ok(())
        } else {
            let prdi = self.temps.is_used(Reg::RDI);
            if prdi {
                self.emit(Instr::Push(Reg::RDI));
                self.temps.inc_stack(8);
            }
            let pad = !self.temps.stack_aligned();
            if pad {
                self.emit(Instr::SubRsp(8));
                self.temps.inc_stack(8);
            }
            let src = match self.operand_src(&args[0]) {
                Ok(s) => s,
                Err(e) => {
                    return Err(e);
                },
            };
            self.emit(Instr::MovToReg { dst: Reg::RDI, src });
            self.emit(Instr::CallNamed(fname));
            if pad {
                self.emit(Instr::AddRsp(8));
                self.temps.dec_stack(8);
            }
            if prdi {
                self.emit(Instr::Pop(Reg::RDI));
                self.temps.dec_stack(8);
            }
            proof {
                assert(final(self).outv() =~= old(self).outv() + sp_emit_call(
                    name@,
                    argsv,
                    old(self).st(),
                )->Ok_0.0);
                assert(final(self).st() =~= sp_emit_call(
                    name@,
                    argsv,
                    old(self).st(),
                )->Ok_0.1);
            }
            Ok(())
        }
    }
}


impl AsmWriter {
    /// The single forward pass: emits every IR unit, appends the
    /// unconditional termination sequence, and renders the full listing
    /// with its headers and the static-storage section. The temporary
    /// counter of the stack tracker lives in a machine word, so an IR
    /// whose units outnumber a sixteenth of it is refused; any other IR
    /// yields exactly the model's listing, or the model's fatal
    /// inconsistency.
    #[verifier::loop_isolation(false)]
    #[verifier::rlimit(100)]
    pub fn write(self, code: &CodeTree) -> (r: Result<String, BackendErr>)
        requires
            self.wf(),
            self.st() == sp_init_st(),
            self.outv() == Seq::<InstrV>::empty(),
        ensures
            code@.len() <= (usize::MAX - 32) / 16 ==> match sp_emit_program(code@) {
                Ok(p) => r matches Ok(s) && s@ == sp_render_listing(p.0, p.1),
                Err(ev) => r matches Err(e) && e@ == ev,
            },
            code@.len() > (usize::MAX - 32) / 16 ==> (r matches Err(e) && e
                == BackendErr::General),
    {
        if code.units.len() > (usize::MAX - 32) / 16 {
            return Err(BackendErr::General);
        }
        let ghost uv = code@;
        let mut pass = self;
        let n = code.units.len();
        let mut i: usize = 0;
        proof {
            assert(uv.skip(0) =~= uv);
        }
        while i < n
            invariant
                n == code.units@.len(),
                n == uv.len(),
                i <= n,
                n <= (usize::MAX - 32) / 16,
                pass.wf(),
                pass.st().pushes <= 16 * i,
                sp_emit_units(uv, sp_init_st()) == (match sp_emit_units(
                    uv.skip(i as int),
                    pass.st(),
                ) {
                    Ok(p) => Ok::<(Seq<InstrV>, EmitSt), BackendErrV>((pass.outv() + p.0, p.1)),
                    Err(e) => Err(e),
                }),
            decreases n - i,
        {
            let ghost st0 = pass.st();
            let ghost out0 = pass.outv();
            proof {
                assert(uv.skip(i as int)[0] == uv[i as int]);
                assert(uv.skip(i as int).drop_first() =~= uv.skip(i as int + 1));
                assert(uv[i as int] == code.units@[i as int]@);
            }
            let unit = &code.units[i];
            match unit {
                CodeUnit::Operation { op, lhs, rhs, dest } => {
                    match pass.emit_operation(*op, lhs, rhs, dest) {
                        Ok(_) => {},
                        Err(e) => {
                            return Err(e);
                        },
                    }
                },
                CodeUnit::Assignment { name, value } => {
                    match pass.emit_assignment(name, value) {
                        Ok(_) => {},
                        Err(e) => {
                            return Err(e);
                        },
                    }
                },
                CodeUnit::FuncCall { name, args } => {
                    match pass.emit_call(name, args) {
                        Ok(_) => {},
                        Err(e) => {
                            return Err(e);
                        },
                    }
                },
            }
            proof {
                assert(sp_emit_unit(uv[i as int], st0) matches Ok(p) && pass.outv() =~= out0 + p.0
                    && pass.st() =~= p.1);
                assert forall|p2: (Seq<InstrV>, EmitSt)|
                    sp_emit_units(uv.skip(i as int + 1), pass.st()) == Ok::<
                        (Seq<InstrV>, EmitSt),
                        BackendErrV,
                    >(p2) implies out0 + (sp_emit_unit(uv[i as int], st0)->Ok_0.0 + p2.0)
                    =~= pass.outv() + p2.0 by {}
            }
            i += 1;
        }
        proof {
            assert(uv.skip(n as int) =~= Seq::<CodeUnitV>::empty());
        }
        let ghost stbody = pass.st();
        let ghost outbody = pass.outv();
        let pad = !pass.temps.stack_aligned();
        if pad {
            pass.emit(Instr::SubRsp(8));
            pass.temps.inc_stack(8);
        }
        pass.emit(Instr::MovEdi0);
        pass.emit(Instr::CallNamed(String::from_str("exit")));
        proof {
            assert(pass.outv() =~= outbody + sp_exit_seq(stbody).0);
            assert(sp_emit_program(uv) matches Ok(p) && p.0 =~= pass.outv() && p.1
                == stbody.vars);
        }
        let mut out = String::from_str(
            "section .data\n\tformat db \"%ld\", 10, 0\nsection .text\n\tglobal main\n\textern printf\n\textern exit\n\nmain:\n",
        );
        out.append("\tsub rsp, 8\n");
        out.append(render_instrs_exec(&pass.out).as_str());
        out.append("\nsection .bss\n");
        out.append(render_vars_exec(&pass.vars).as_str());
        out.append("\nsection .note.GNU-stack noalloc noexec nowrite progbits");
        proof {
            assert(out@ =~= sp_render_listing(
                sp_emit_program(uv)->Ok_0.0,
                sp_emit_program(uv)->Ok_0.1,
            ));
        }
        Ok(out)
    }
}


/// Division and modulo both sign-extend the accumulator before the divide
/// instruction; division leaves the quotient in the accumulator (no
/// remainder selection appears), while modulo selects the remainder into
/// the accumulator right after the divide.
pub proof fn lemma_divmod_selection(op: Operation, rhs: OperandV, st: EmitSt)
    requires
        op is Div || op is Mod,
    ensures
        match sp_write_op(op, rhs, st) {
            Ok(p) => {
                let s = p.0;
                let b: int = if st.used[6] {
                    1
                } else {
                    0
                };
                &&& s.len() == 3 + b + b + (if op is Mod {
                    1int
                } else {
                    0int
                })
                &&& s[0] is Cqo
                &&& s[1 + b] matches InstrV::MovToReg { dst: Reg::RCX, .. }
                &&& s[2 + b] is IdivRcx
                &&& (op is Mod ==> s[3 + b] is MovRaxRdx)
                &&& (op is Div ==> forall|i: int| 0 <= i < s.len() ==> !((#[trigger] s[i])
                    is MovRaxRdx))
            },
            Err(_) => true,
        },
{
    let prcx = st.used[6];
    let st1 = if prcx {
        st_push8(st)
    } else {
        st
    };
    match sp_src_of(rhs, st1.temps) {
        None => {},
        Some(src) => {
            let head = seq![InstrV::Cqo] + if prcx {
                seq![InstrV::Push(Reg::RCX)]
            } else {
                Seq::<InstrV>::empty()
            };
            let mid = seq![InstrV::MovToReg { dst: Reg::RCX, src }, InstrV::IdivRcx] + if op
                is Mod {
                seq![InstrV::MovRaxRdx]
            } else {
                Seq::<InstrV>::empty()
            };
            let tail = if prcx {
                seq![InstrV::Pop(Reg::RCX)]
            } else {
                Seq::<InstrV>::empty()
            };
            let s = head + mid + tail;
            assert(sp_write_op(op, rhs, st)->Ok_0.0 =~= s);
            let b: int = if prcx {
                1
            } else {
                0
            };
            assert(s[0] is Cqo);
            assert(s[1 + b] matches InstrV::MovToReg { dst: Reg::RCX, .. });
            assert(s[2 + b] is IdivRcx);
            if op is Mod {
                assert(s[3 + b] is MovRaxRdx);
            }
        },
    }
}


pub proof fn lemma_net_prefix(a: Seq<InstrV>, b: Seq<InstrV>, j: int)
    requires
        0 <= j <= a.len(),
    ensures
        stack_net(a + b, j) == stack_net(a, j),
    decreases j,
{
    if j > 0 {
        lemma_net_prefix(a, b, j - 1);
        assert((a + b)[j - 1] == a[j - 1]);
    }
}

pub proof fn lemma_net_concat(a: Seq<InstrV>, b: Seq<InstrV>, i: int)
    requires
        0 <= i <= b.len(),
    ensures
        stack_net(a + b, a.len() + i) == stack_net(a, a.len() as int) + stack_net(b, i),
    decreases i,
{
    if i == 0 {
        lemma_net_prefix(a, b, a.len() as int);
    } else {
        lemma_net_concat(a, b, i - 1);
        assert((a + b)[a.len() + i - 1] == b[i - 1]);
    }
}

/// Concatenation keeps the alignment invariant when the second part is
/// aligned against the first part's net effect.
pub proof fn lemma_aligned_concat(a: Seq<InstrV>, b: Seq<InstrV>, base: int)
    requires
        calls_aligned(a, base),
        calls_aligned(b, base + stack_net(a, a.len() as int)),
    ensures
        calls_aligned(a + b, base),
{
    assert forall|i: int|
        0 <= i < (a + b).len() && (#[trigger] (a + b)[i]) is CallNamed implies (base + stack_net(
        a + b,
        i,
    )) % 16 == 0 by {
        if i < a.len() {
            lemma_net_prefix(a, b, i);
            assert((a + b)[i] == a[i]);
        } else {
            lemma_net_concat(a, b, i - a.len());
            assert((a + b)[i] == b[i - a.len()]);
        }
    }
}

pub proof fn lemma_no_calls_aligned(s: Seq<InstrV>, base: int)
    requires
        forall|i: int| 0 <= i < s.len() ==> !((#[trigger] s[i]) is CallNamed),
    ensures
        calls_aligned(s, base),
{
}

/// The operator sequence makes no call and leaves the byte counter where
/// it was.
proof fn lemma_write_op_net(op: Operation, rhs: OperandV, st: EmitSt)
    ensures
        match sp_write_op(op, rhs, st) {
            Ok(p) => {
                &&& stack_net(p.0, p.0.len() as int) == 0
                &&& p.1.pushes == st.pushes
                &&& forall|i: int| 0 <= i < p.0.len() ==> !((#[trigger] p.0[i]) is CallNamed)
            },
            Err(_) => true,
        },
{
    reveal_with_fuel(stack_net, 10);
    match op {
        Operation::Add | Operation::Sub | Operation::Mul => {},
        Operation::Div | Operation::Mod => {
            let prcx = st.used[6];
            let st1 = if prcx {
                st_push8(st)
            } else {
                st
            };
            match sp_src_of(rhs, st1.temps) {
                None => {},
                Some(src) => {
                    let s = sp_write_op(op, rhs, st)->Ok_0.0;
                    assert(stack_net(s, s.len() as int) == 0);
                },
            }
        },
    }
}

/// Storing into a destination makes no call; a spill moves the counter by
/// the reserved slot.
proof fn lemma_store_dest_net(dest: OperandV, st: EmitSt)
    ensures
        match sp_store_dest(dest, st) {
            Ok(p) => {
                &&& stack_net(p.0, p.0.len() as int) == p.1.pushes - st.pushes
                &&& (st.pushes % 8 == 0 ==> p.1.pushes % 8 == 0)
                &&& forall|i: int| 0 <= i < p.0.len() ==> !((#[trigger] p.0[i]) is CallNamed)
            },
            Err(_) => true,
        },
{
    reveal_with_fuel(stack_net, 10);
}

/// The termination sequence pads to alignment and then calls.
proof fn lemma_exit_net(st: EmitSt)
    requires
        st.pushes % 8 == 0,
    ensures
        ({
            let p = sp_exit_seq(st);
            &&& stack_net(p.0, p.0.len() as int) == p.1.pushes - st.pushes
            &&& calls_aligned(p.0, st.pushes)
            &&& p.1.pushes % 8 == 0
        }),
{
    reveal_with_fuel(stack_net, 10);
    let pad = st.pushes % 16 != 0;
    let p = sp_exit_seq(st);
    if pad {
        assert(st.pushes % 16 == 8) by (nonlinear_arith)
            requires
                st.pushes % 8 == 0,
                st.pushes % 16 != 0,
        ;
        assert((st.pushes + 8) % 16 == 0) by (nonlinear_arith)
            requires
                st.pushes % 16 == 8,
        ;
        assert forall|i: int|
            0 <= i < p.0.len() && (#[trigger] p.0[i]) is CallNamed implies (st.pushes + stack_net(
            p.0,
            i,
        )) % 16 == 0 by {
            assert(i == 2);
            assert(stack_net(p.0, 2) == 8);
        }
    } else {
        assert forall|i: int|
            0 <= i < p.0.len() && (#[trigger] p.0[i]) is CallNamed implies (st.pushes + stack_net(
            p.0,
            i,
        )) % 16 == 0 by {
            assert(i == 1);
            assert(stack_net(p.0, 1) == 0);
        }
    }
}

/// Saves, padding, argument placement, call, and restores of the
/// formatted-output built-in: the counter is a multiple of 16 exactly at
/// the call, and is restored afterwards.
#[verifier::rlimit(100)]
proof fn lemma_printf_net(arg: OperandV, st: EmitSt)
    requires
        st.pushes % 8 == 0,
    ensures
        match sp_printf_seq(arg, st) {
            Ok(p) => {
                &&& stack_net(p.0, p.0.len() as int) == p.1.pushes - st.pushes
                &&& calls_aligned(p.0, st.pushes)
                &&& p.1.pushes % 8 == 0
            },
            Err(_) => true,
        },
{
    reveal_with_fuel(stack_net, 16);
    let prsi = st.used[5];
    let st1 = if prsi {
        st_push8(st)
    } else {
        st
    };
    let s1: Seq<InstrV> = if prsi {
        seq![InstrV::Push(Reg::RSI)]
    } else {
        Seq::empty()
    };
    let prdi = st1.used[4];
    let st2 = if prdi {
        st_push8(st1)
    } else {
        st1
    };
    let s2: Seq<InstrV> = if prdi {
        seq![InstrV::Push(Reg::RDI)]
    } else {
        Seq::empty()
    };
    let pad = st2.pushes % 16 != 0;
    let st3 = if pad {
        st_push8(st2)
    } else {
        st2
    };
    let s3: Seq<InstrV> = if pad {
        seq![InstrV::SubRsp(8)]
    } else {
        Seq::empty()
    };
    if pad {
        assert(st2.pushes % 16 == 8) by (nonlinear_arith)
            requires
                st2.pushes % 8 == 0,
                st2.pushes % 16 != 0,
        ;
        assert((st2.pushes + 8) % 16 == 0) by (nonlinear_arith)
            requires
                st2.pushes % 16 == 8,
        ;
    }
    assert(st3.pushes % 16 == 0);
    match sp_src_of(arg, st3.temps) {
        None => {},
        Some(src) => {
            let s4 = seq![
                InstrV::MovToReg { dst: Reg::RSI, src },
                InstrV::MovRdiFormat,
                InstrV::XorRaxRax,
                InstrV::CallNamed("printf"@),
            ];
            let s5: Seq<InstrV> = if pad {
                seq![InstrV::AddRsp(8)]
            } else {
                Seq::empty()
            };
            let s6: Seq<InstrV> = if prdi {
                seq![InstrV::Pop(Reg::RDI)]
            } else {
                Seq::empty()
            };
            let s7: Seq<InstrV> = if prsi {
                seq![InstrV::Pop(Reg::RSI)]
            } else {
                Seq::empty()
            };
            let whole = s1 + s2 + s3 + s4 + s5 + s6 + s7;
            assert(sp_printf_seq(arg, st)->Ok_0.0 == whole);
            let a = s1 + s2 + s3;
            let b = s4 + s5 + s6 + s7;
            assert(whole =~= a + b);
            assert(stack_net(a, a.len() as int) == st3.pushes - st.pushes);
            lemma_no_calls_aligned(a, st.pushes);
            assert(stack_net(b, b.len() as int) == sp_printf_seq(arg, st)->Ok_0.1.pushes
                - st3.pushes);
            assert forall|i: int|
                0 <= i < b.len() && (#[trigger] b[i]) is CallNamed implies (st3.pushes
                + stack_net(b, i)) % 16 == 0 by {
                assert(i == 3);
                assert(stack_net(b, 3) == 0);
            }
            lemma_aligned_concat(a, b, st.pushes);
            lemma_net_concat(a, b, b.len() as int);
            assert(calls_aligned(whole, st.pushes));
        },
    }
}

/// Save, padding, argument placement, call, and restore of an external
/// call: the counter is a multiple of 16 exactly at the call.
#[verifier::rlimit(100)]
proof fn lemma_external_net(fname: Seq<char>, arg: OperandV, st: EmitSt)
    requires
        st.pushes % 8 == 0,
    ensures
        match sp_external_seq(fname, arg, st) {
            Ok(p) => {
                &&& stack_net(p.0, p.0.len() as int) == p.1.pushes - st.pushes
                &&& calls_aligned(p.0, st.pushes)
                &&& p.1.pushes % 8 == 0
            },
            Err(_) => true,
        },
{
    reveal_with_fuel(stack_net, 16);
    let prdi = st.used[4];
    let st1 = if prdi {
        st_push8(st)
    } else {
        st
    };
    let s1: Seq<InstrV> = if prdi {
        seq![InstrV::Push(Reg::RDI)]
    } else {
        Seq::empty()
    };
    let pad = st1.pushes % 16 != 0;
    let st2 = if pad {
        st_push8(st1)
    } else {
        st1
    };
    let s2: Seq<InstrV> = if pad {
        seq![InstrV::SubRsp(8)]
    } else {
        Seq::empty()
    };
    if pad {
        assert(st1.pushes % 16 == 8) by (nonlinear_arith)
            requires
                st1.pushes % 8 == 0,
                st1.pushes % 16 != 0,
        ;
        assert((st1.pushes + 8) % 16 == 0) by (nonlinear_arith)
            requires
                st1.pushes % 16 == 8,
        ;
    }
    assert(st2.pushes % 16 == 0);
    match sp_src_of(arg, st2.temps) {
        None => {},
        Some(src) => {
            let s3 = seq![InstrV::MovToReg { dst: Reg::RDI, src }, InstrV::CallNamed(fname)];
            let s4: Seq<InstrV> = if pad {
                seq![InstrV::AddRsp(8)]
            } else {
                Seq::empty()
            };
            let s5: Seq<InstrV> = if prdi {
                seq![InstrV::Pop(Reg::RDI)]
            } else {
                Seq::empty()
            };
            let whole = s1 + s2 + s3 + s4 + s5;
            assert(sp_external_seq(fname, arg, st)->Ok_0.0 == whole);
            let a = s1 + s2;
            let b = s3 + s4 + s5;
            assert(whole =~= a + b);
            assert(stack_net(a, a.len() as int) == st2.pushes - st.pushes);
            lemma_no_calls_aligned(a, st.pushes);
            assert forall|i: int|
                0 <= i < b.len() && (#[trigger] b[i]) is CallNamed implies (st2.pushes
                + stack_net(b, i)) % 16 == 0 by {
                assert(i == 1);
                assert(stack_net(b, 1) == 0);
            }
            lemma_aligned_concat(a, b, st.pushes);
            lemma_net_concat(a, b, b.len() as int);
        },
    }
}

/// One unit's emission makes only aligned calls, and the byte counter
/// tracks the net bytes its instructions push.
#[verifier::rlimit(100)]
pub proof fn lemma_emit_unit_aligned(u: CodeUnitV, st: EmitSt)
    requires
        st.pushes % 8 == 0,
    ensures
        match sp_emit_unit(u, st) {
            Ok(p) => {
                &&& stack_net(p.0, p.0.len() as int) == p.1.pushes - st.pushes
                &&& calls_aligned(p.0, st.pushes)
                &&& p.1.pushes % 8 == 0
            },
            Err(_) => true,
        },
{
    reveal_with_fuel(stack_net, 10);
    match u {
        CodeUnitV::FuncCall { name, args } => {
            if args.len() == 1 {
                let fname = if name == "print"@ {
                    "printf"@
                } else {
                    name
                };
                if fname == "printf"@ {
                    lemma_printf_net(args[0], st);
                } else if fname == "exit"@ {
                    lemma_exit_net(st);
                } else {
                    lemma_external_net(fname, args[0], st);
                }
            }
        },
        CodeUnitV::Operation { op, lhs, rhs, dest } => {
            match sp_src_of(lhs, st.temps) {
                None => {},
                Some(sl) => {
                    lemma_write_op_net(op, rhs, st);
                    match sp_write_op(op, rhs, st) {
                        Err(_) => {},
                        Ok(r2) => {
                            lemma_store_dest_net(dest, r2.1);
                            match sp_store_dest(dest, r2.1) {
                                Err(_) => {},
                                Ok(r3) => {
                                    let head = seq![InstrV::MovToReg { dst: Reg::RAX, src: sl }];
                                    let whole = head + r2.0 + r3.0;
                                    assert(whole =~= head + (r2.0 + r3.0));
                                    lemma_net_concat(r2.0, r3.0, r3.0.len() as int);
                                    lemma_net_concat(
                                        head,
                                        r2.0 + r3.0,
                                        (r2.0 + r3.0).len() as int,
                                    );
                                    assert(stack_net(whole, whole.len() as int) == r3.1.pushes
                                        - st.pushes);
                                    assert forall|i: int|
                                        0 <= i < whole.len() ==> !((#[trigger] whole[i])
                                        is CallNamed) by {}
                                    lemma_no_calls_aligned(whole, st.pushes);
                                },
                            }
                        },
                    }
                },
            }
        },
        CodeUnitV::Assignment { name, value } => {},
    }
}

/// The whole pass makes only aligned calls, and the byte counter tracks
/// the net bytes pushed.
pub proof fn lemma_emit_units_aligned(units: Seq<CodeUnitV>, st: EmitSt)
    requires
        st.pushes % 8 == 0,
    ensures
        match sp_emit_units(units, st) {
            Ok(p) => {
                &&& stack_net(p.0, p.0.len() as int) == p.1.pushes - st.pushes
                &&& calls_aligned(p.0, st.pushes)
                &&& p.1.pushes % 8 == 0
            },
            Err(_) => true,
        },
    decreases units.len(),
{
    if units.len() > 0 {
        lemma_emit_unit_aligned(units[0], st);
        match sp_emit_unit(units[0], st) {
            Err(_) => {},
            Ok(r1) => {
                lemma_emit_units_aligned(units.drop_first(), r1.1);
                match sp_emit_units(units.drop_first(), r1.1) {
                    Err(_) => {},
                    Ok(r2) => {
                        lemma_net_concat(r1.0, r2.0, r2.0.len() as int);
                        lemma_aligned_concat(r1.0, r2.0, st.pushes);
                    },
                }
            },
        }
    }
}

/// The alignment invariant of the whole program: immediately before every
/// emitted call instruction, the tracked byte counter -- the net bytes
/// pushed since emission began -- is a multiple of 16.
pub proof fn lemma_emit_program_aligned(units: Seq<CodeUnitV>)
    ensures
        match sp_emit_program(units) {
            Ok(p) => calls_aligned(p.0, 0),
            Err(_) => true,
        },
{
    lemma_emit_units_aligned(units, sp_init_st());
    match sp_emit_units(units, sp_init_st()) {
        Err(_) => {},
        Ok(r) => {
            lemma_exit_net(r.1);
            let fin = sp_exit_seq(r.1);
            lemma_aligned_concat(r.0, fin.0, 0);
        },
    }
}


/// Every recorded stack offset is nonnegative.
pub open spec fn offsets_ok(m: Map<Seq<char>, LocV>) -> bool {
    forall|k: Seq<char>|
        m.dom().contains(k) ==> match #[trigger] m[k] {
            LocV::Stack(o) => o >= 0,
            LocV::Reg(_) => true,
        }
}

/// A push of 8 bytes followed by a pop of 8 bytes leaves the temp map
/// where it was: nothing can be evicted, since every slot lies at least 8
/// bytes from the stack pointer after the push.
pub proof fn lemma_shift_then_drop(m: Map<Seq<char>, LocV>)
    requires
        offsets_ok(m),
    ensures
        map_drop(map_shift(m, 8), 8) =~= m,
{
}

/// A well-formed unit emits successfully: every temporary it reads is
/// recorded, and the temporaries recorded afterwards cover those defined.
#[verifier::rlimit(100)]
pub proof fn lemma_emit_unit_ok(u: CodeUnitV, st: EmitSt, defined: Set<Seq<char>>)
    requires
        offsets_ok(st.temps),
        defined.subset_of(st.temps.dom()),
        ir_wf_from(seq![u], defined),
    ensures
        sp_emit_unit(u, st) matches Ok(p) && offsets_ok(p.1.temps) && defined_after(
            seq![u],
            defined,
        ).subset_of(p.1.temps.dom()),
{
    reveal_with_fuel(ir_wf_from, 3);
    reveal_with_fuel(defined_after, 3);
    assert(seq![u][0] == u);
    assert(seq![u].drop_first() =~= Seq::<CodeUnitV>::empty());
    match u {
        CodeUnitV::Operation { op, lhs, rhs, dest } => {
            assert(sp_src_of(lhs, st.temps) is Some);
            let st2 = match op {
                Operation::Div | Operation::Mod => {
                    if st.used[6] {
                        lemma_shift_then_drop(st.temps);
                        st_pop8(st_push8(st))
                    } else {
                        st
                    }
                },
                _ => st,
            };
            assert(sp_write_op(op, rhs, st) is Ok);
            assert(sp_write_op(op, rhs, st)->Ok_0.1.temps =~= st.temps);
            assert(sp_store_dest(dest, sp_write_op(op, rhs, st)->Ok_0.1) is Ok);
        },
        CodeUnitV::Assignment { name, value } => {},
        CodeUnitV::FuncCall { name, args } => {
            let fname = if name == "print"@ {
                "printf"@
            } else {
                name
            };
            if fname == "printf"@ {
                let prsi = st.used[5];
                let st1 = if prsi {
                    st_push8(st)
                } else {
                    st
                };
                let prdi = st1.used[4];
                let st2 = if prdi {
                    st_push8(st1)
                } else {
                    st1
                };
                let pad = st2.pushes % 16 != 0;
                let st3 = if pad {
                    st_push8(st2)
                } else {
                    st2
                };
                assert(st3.temps.dom() =~= st.temps.dom());
                assert(sp_src_of(args[0], st3.temps) is Some);
                if pad {
                    lemma_shift_then_drop(st2.temps);
                }
                if prdi {
                    lemma_shift_then_drop(st1.temps);
                }
                if prsi {
                    lemma_shift_then_drop(st.temps);
                }
                assert(sp_printf_seq(args[0], st) matches Ok(p) && p.1.temps =~= st.temps);
            } else if fname == "exit"@ {
            } else {
                let prdi = st.used[4];
                let st1 = if prdi {
                    st_push8(st)
                } else {
                    st
                };
                let pad = st1.pushes % 16 != 0;
                let st2 = if pad {
                    st_push8(st1)
                } else {
                    st1
                };
                assert(st2.temps.dom() =~= st.temps.dom());
                assert(sp_src_of(args[0], st2.temps) is Some);
                if pad {
                    lemma_shift_then_drop(st1.temps);
                }
                if prdi {
                    lemma_shift_then_drop(st.temps);
                }
                assert(sp_external_seq(fname, args[0], st) matches Ok(p) && p.1.temps
                    =~= st.temps);
            }
        },
    }
}

/// Well-formed IR emits successfully, unit by unit.
pub proof fn lemma_emit_units_ok(units: Seq<CodeUnitV>, st: EmitSt, defined: Set<Seq<char>>)
    requires
        offsets_ok(st.temps),
        defined.subset_of(st.temps.dom()),
        ir_wf_from(units, defined),
    ensures
        sp_emit_units(units, st) is Ok,
    decreases units.len(),
{
    if units.len() > 0 {
        assert(units =~= seq![units[0]] + units.drop_first());
        lemma_wf_concat(seq![units[0]], units.drop_first(), defined);
        lemma_emit_unit_ok(units[0], st, defined);
        let p = sp_emit_unit(units[0], st)->Ok_0;
        lemma_emit_units_ok(units.drop_first(), p.1, defined_after(seq![units[0]], defined));
    }
}

/// The emitter never aborts on well-formed IR: in particular, on anything
/// the IR builder produces, emission yields a listing.
pub proof fn lemma_wf_emit_ok(units: Seq<CodeUnitV>)
    requires
        ir_wf(units),
    ensures
        sp_emit_program(units) is Ok,
{
    lemma_emit_units_ok(units, sp_init_st(), Set::empty());
}

} // verus!
