use minicomp::ast::Operation;
use minicomp::backend::{asm_gen, generate, BackendErr};
use minicomp::codegen::{CodeTree, CodeUnit, Operand};
use minicomp::frontend::get_ast;
use minicomp::regalloc::{Location, Reg, TempVarTrack, Vars};

#[test]
fn registers_are_first_fit() {
    let mut t = TempVarTrack::default();
    let pool = [
        Reg::R8,
        Reg::R9,
        Reg::R10,
        Reg::R11,
        Reg::RDI,
        Reg::RSI,
        Reg::RCX,
    ];
    for (i, r) in pool.iter().enumerate() {
        t.add(format!("t{}", i));
        assert_eq!(t.get(&format!("t{}", i)), Some(Location::Reg(*r)));
    }
}

#[test]
fn exhausted_pool_spills_and_offsets_track_pushes() {
    let mut t = TempVarTrack::default();
    for i in 0..7 {
        t.add(format!("t{}", i));
    }
    // the caller reserves the slot, then the temp sits at its top
    t.inc_stack(8);
    t.add("spilled".to_string());
    assert_eq!(t.get("spilled"), Some(Location::Stack(0)));
    // further pushes move the slot away from the stack pointer
    t.inc_stack(16);
    assert_eq!(t.get("spilled"), Some(Location::Stack(16)));
    // popping part of it moves it back
    t.dec_stack(8);
    assert_eq!(t.get("spilled"), Some(Location::Stack(8)));
    // register-resident temps never move
    assert_eq!(t.get("t0"), Some(Location::Reg(Reg::R8)));
}

#[test]
fn pop_below_slot_evicts_the_temp() {
    let mut t = TempVarTrack::default();
    for i in 0..7 {
        t.add(format!("t{}", i));
    }
    t.inc_stack(8);
    t.add("spilled".to_string());
    t.inc_stack(8);
    assert_eq!(t.get("spilled"), Some(Location::Stack(8)));
    // reclaim more bytes than the recorded offset: the slot is gone
    t.dec_stack(16);
    assert_eq!(t.get("spilled"), None);
    // registers survive the pop
    assert_eq!(t.get("t6"), Some(Location::Reg(Reg::RCX)));
}

#[test]
fn drop_frees_only_register_residents() {
    let mut t = TempVarTrack::default();
    t.add("a".to_string());
    assert_eq!(t.get("a"), Some(Location::Reg(Reg::R8)));
    t.drop("a");
    assert_eq!(t.get("a"), None);
    // the freed register is handed out again, first fit
    t.add("b".to_string());
    assert_eq!(t.get("b"), Some(Location::Reg(Reg::R8)));
}

#[test]
fn stack_alignment_flips_every_eight_bytes() {
    let mut t = TempVarTrack::default();
    assert!(t.stack_aligned());
    t.inc_stack(8);
    assert!(!t.stack_aligned());
    t.inc_stack(8);
    assert!(t.stack_aligned());
    t.dec_stack(8);
    assert!(!t.stack_aligned());
}

#[test]
fn variable_registration_is_idempotent_and_ordered() {
    let mut v = Vars::default();
    v.add("x".to_string());
    v.add("y".to_string());
    v.add("x".to_string());
    v.add("y".to_string());
    v.add("z".to_string());
    assert_eq!(
        v.inner,
        vec!["x".to_string(), "y".to_string(), "z".to_string()]
    );
}

#[test]
fn end_to_end_listing() {
    let ast = get_ast("x = 5 + (1 * 2); print x + 3; y = x * (5 - 2); x + 2;").unwrap();
    let code = generate(&ast).unwrap();
    let listing = asm_gen(code).unwrap();
    let mut expected = String::new();
    expected.push_str("section .data\n\tformat db \"%ld\", 10, 0\nsection .text\n\tglobal main\n");
    expected.push_str("\textern printf\n\textern exit\n\nmain:\n");
    expected.push_str("\tsub rsp, 8\n");
    expected.push_str("\tmov rax, 1\n");
    expected.push_str("\timul rax, 2\n");
    expected.push_str("\tmov r8, rax\n");
    expected.push_str("\tmov rax, 5\n");
    expected.push_str("\tadd rax, r8\n");
    expected.push_str("\tmov r9, rax\n");
    expected.push_str("\tmov qword [x], r9\n");
    expected.push_str("\tmov rax, [x]\n");
    expected.push_str("\tadd rax, 3\n");
    expected.push_str("\tmov r10, rax\n");
    expected.push_str("\tmov rsi, r10\n");
    expected.push_str("\tmov rdi, format\n");
    expected.push_str("\txor rax, rax\n");
    expected.push_str("\tcall printf\n");
    expected.push_str("\tmov rax, 5\n");
    expected.push_str("\tsub rax, 2\n");
    expected.push_str("\tmov r11, rax\n");
    expected.push_str("\tmov rax, [x]\n");
    expected.push_str("\timul rax, r11\n");
    expected.push_str("\tmov rdi, rax\n");
    expected.push_str("\tmov qword [y], rdi\n");
    expected.push_str("\tmov rax, [x]\n");
    expected.push_str("\tadd rax, 2\n");
    expected.push_str("\tmov rsi, rax\n");
    expected.push_str("\tmov edi, 0\n");
    expected.push_str("\tcall exit\n");
    expected.push_str("\nsection .bss\n");
    expected.push_str("\tx resq 1\n");
    expected.push_str("\ty resq 1\n");
    expected.push_str("\nsection .note.GNU-stack noalloc noexec nowrite progbits");
    assert_eq!(listing, expected);
}

#[test]
fn modulo_selects_remainder_after_sign_extended_divide() {
    let ast = get_ast("print 7 % 3;").unwrap();
    let listing = asm_gen(generate(&ast).unwrap()).unwrap();
    let cqo = listing.find("\tcqo\n").expect("sign extension missing");
    let idiv = listing.find("\tidiv rcx\n").expect("divide missing");
    let sel = listing.find("\tmov rax, rdx\n").expect("remainder selection missing");
    assert!(cqo < idiv);
    assert!(idiv < sel);
}

#[test]
fn division_keeps_quotient_in_accumulator() {
    let ast = get_ast("print 7 / 3;").unwrap();
    let listing = asm_gen(generate(&ast).unwrap()).unwrap();
    let cqo = listing.find("\tcqo\n").expect("sign extension missing");
    let idiv = listing.find("\tidiv rcx\n").expect("divide missing");
    assert!(cqo < idiv);
    assert!(!listing.contains("mov rax, rdx"));
}

#[test]
fn spill_reserves_a_slot_and_addresses_it() {
    // eight live temporaries: the eighth overflows the seven-register pool
    let ast = get_ast("1+1; 2+2; 3+3; 4+4; 5+5; 6+6; 7+7; 8+8;").unwrap();
    let listing = asm_gen(generate(&ast).unwrap()).unwrap();
    assert!(listing.contains("\tsub rsp, 8\n\tmov [rsp + 0], rax\n"));
}

#[test]
fn final_call_is_padded_to_alignment() {
    // one spilled temp leaves 8 bytes on the stack, so the termination
    // call needs 8 bytes of padding to reach 16-byte alignment
    let ast = get_ast("1+1; 2+2; 3+3; 4+4; 5+5; 6+6; 7+7; 8+8;").unwrap();
    let listing = asm_gen(generate(&ast).unwrap()).unwrap();
    let mut tail = String::new();
    tail.push_str("\tsub rsp, 8\n\tmov edi, 0\n\tcall exit\n");
    tail.push_str("\nsection .bss\n");
    tail.push_str("\nsection .note.GNU-stack noalloc noexec nowrite progbits");
    assert!(listing.ends_with(&tail));
}

#[test]
fn saved_argument_registers_are_restored_around_print() {
    // temps t4 and t5 occupy rdi and rsi when the call is emitted
    let ast = get_ast("1+1; 2+2; 3+3; 4+4; 5+5; 6+6; print 9 + 9;").unwrap();
    let listing = asm_gen(generate(&ast).unwrap()).unwrap();
    let push_rsi = listing.find("\tpush rsi\n").expect("rsi not saved");
    let push_rdi = listing.find("\tpush rdi\n").expect("rdi not saved");
    let call = listing.find("\tcall printf\n").expect("call missing");
    let pop_rdi = listing.find("\tpop rdi\n").expect("rdi not restored");
    let pop_rsi = listing.find("\tpop rsi\n").expect("rsi not restored");
    assert!(push_rsi < push_rdi);
    assert!(push_rdi < call);
    assert!(call < pop_rdi);
    assert!(pop_rdi < pop_rsi);
}

#[test]
fn external_call_goes_through_first_argument_register() {
    // only built-in routine names are recognised by the parser, so the
    // external path is reached with hand-built IR
    let code = CodeTree {
        units: vec![CodeUnit::FuncCall {
            name: "frobnicate".to_string(),
            args: vec![Operand::Immediate(5)],
        }],
    };
    let listing = asm_gen(code).unwrap();
    assert!(listing.contains("\tmov rdi, 5\n\tcall frobnicate\n"));
}

#[test]
fn unknown_temp_is_a_fatal_inconsistency() {
    let code = CodeTree {
        units: vec![CodeUnit::Operation {
            op: Operation::Add,
            lhs: Operand::Temp("never_written".to_string()),
            rhs: Operand::Immediate(1),
            dest: Operand::Temp("d".to_string()),
        }],
    };
    assert_eq!(
        asm_gen(code),
        Err(BackendErr::UnknownTemp("never_written".to_string()))
    );
}

#[test]
fn immediate_destination_is_a_fatal_inconsistency() {
    let code = CodeTree {
        units: vec![CodeUnit::Operation {
            op: Operation::Add,
            lhs: Operand::Immediate(1),
            rhs: Operand::Immediate(2),
            dest: Operand::Immediate(3),
        }],
    };
    assert_eq!(asm_gen(code), Err(BackendErr::BadDestination));
}

#[test]
fn call_without_exactly_one_argument_is_refused() {
    let code = CodeTree {
        units: vec![CodeUnit::FuncCall {
            name: "print".to_string(),
            args: vec![],
        }],
    };
    assert_eq!(asm_gen(code), Err(BackendErr::General));
}

#[test]
fn negative_immediates_render_in_decimal() {
    let code = CodeTree {
        units: vec![CodeUnit::Assignment {
            name: "w".to_string(),
            value: Operand::Immediate(-12),
        }],
    };
    let listing = asm_gen(code).unwrap();
    assert!(listing.contains("\tmov qword [w], -12\n"));
}

#[test]
fn empty_program_still_terminates() {
    let ast = get_ast("").unwrap();
    let listing = asm_gen(generate(&ast).unwrap()).unwrap();
    let mut expected = String::new();
    expected.push_str("section .data\n\tformat db \"%ld\", 10, 0\nsection .text\n\tglobal main\n");
    expected.push_str("\textern printf\n\textern exit\n\nmain:\n");
    expected.push_str("\tsub rsp, 8\n");
    expected.push_str("\tmov edi, 0\n");
    expected.push_str("\tcall exit\n");
    expected.push_str("\nsection .bss\n");
    expected.push_str("\nsection .note.GNU-stack noalloc noexec nowrite progbits");
    assert_eq!(listing, expected);
}

#[test]
fn reassigned_variable_reserves_one_cell() {
    let ast = get_ast("x = 1; x = 2; y = x + 1;").unwrap();
    let listing = asm_gen(generate(&ast).unwrap()).unwrap();
    assert_eq!(listing.matches("\tx resq 1\n").count(), 1);
    assert_eq!(listing.matches("\ty resq 1\n").count(), 1);
}

#[test]
fn print_reads_a_variable_from_memory() {
    let ast = get_ast("x = 3; print x;").unwrap();
    let listing = asm_gen(generate(&ast).unwrap()).unwrap();
    assert!(listing.contains("\tmov rsi, [x]\n\tmov rdi, format\n"));
}

#[test]
fn operation_may_write_a_variable_destination() {
    // the builder only writes temporaries, but the emitter also accepts a
    // variable destination and registers it for static storage
    let code = CodeTree {
        units: vec![CodeUnit::Operation {
            op: Operation::Add,
            lhs: Operand::Immediate(1),
            rhs: Operand::Immediate(2),
            dest: Operand::Variable("v".to_string()),
        }],
    };
    let listing = asm_gen(code).unwrap();
    assert!(listing.contains("\tmov qword [v], rax\n"));
    assert!(listing.contains("\tv resq 1\n"));
}
