use falbe::assembler::compile;
use falbe::errors::VmError;
use falbe::vm::{ConstantStore, Opcode, Vm, E_BITS, PI_BITS, TAU_BITS};

const FUEL: usize = 1_000_000;

fn bits(x: f64) -> u64 {
    x.to_bits()
}

fn run(src: &str) -> Vm {
    let ops = compile(src).unwrap();
    let mut vm = Vm::new(ops, ConstantStore::seeded());
    vm.execute(FUEL).unwrap();
    vm
}

fn stack_values(vm: &Vm) -> Vec<f64> {
    vm.stack.iter().map(|b| f64::from_bits(*b)).collect()
}

#[test]
fn sub_is_non_commutative() {
    let vm = run("macro main { push 5 push 2 sub halt }");
    assert_eq!(stack_values(&vm), vec![3.0]);
    assert_ne!(stack_values(&vm), vec![-3.0]);
}

#[test]
fn add_is_commutative_on_example() {
    let a = run("macro main { push 2 push 3 add halt }");
    let b = run("macro main { push 3 push 2 add halt }");
    assert_eq!(stack_values(&a), vec![5.0]);
    assert_eq!(stack_values(&b), vec![5.0]);
}

#[test]
fn mul_is_commutative_on_example() {
    let a = run("macro main { push 2 push 3 mul halt }");
    let b = run("macro main { push 3 push 2 mul halt }");
    assert_eq!(stack_values(&a), vec![6.0]);
    assert_eq!(stack_values(&b), vec![6.0]);
}

#[test]
fn expanded_macro_computes() {
    let vm = run("macro double { push 2 mul } macro main { push 5 double halt }");
    assert_eq!(stack_values(&vm), vec![10.0]);
}

#[test]
fn fractional_arithmetic() {
    let vm = run("macro main { push 2.5 push .5 add halt }");
    assert_eq!(stack_values(&vm), vec![3.0]);
}

#[test]
fn sqrt_of_nine() {
    let vm = run("macro main { push 9 sqrt halt }");
    assert_eq!(stack_values(&vm), vec![3.0]);
}

#[test]
fn sqrt_of_negative_is_nan() {
    let vm = run("macro main { push -4 sqrt halt }");
    assert_eq!(vm.stack.len(), 1);
    assert!(f64::from_bits(vm.stack[0]).is_nan());
}

#[test]
fn sqrt_rounds_correctly() {
    let vm = run("macro main { push 2 sqrt halt }");
    assert_eq!(stack_values(&vm), vec![2.0_f64.sqrt()]);
}

#[test]
fn pc_pushes_counter_before_increment() {
    let vm = run("macro main { pc pc halt }");
    assert_eq!(stack_values(&vm), vec![0.0, 1.0]);
}

#[test]
fn dup_and_pop() {
    let a = run("macro main { push 2 dup add halt }");
    assert_eq!(stack_values(&a), vec![4.0]);
    let b = run("macro main { push 1 push 2 pop halt }");
    assert_eq!(stack_values(&b), vec![1.0]);
}

#[test]
fn print_appends_output_without_popping() {
    let vm = run("macro main { push 3 print print halt }");
    assert_eq!(vm.output, vec![bits(3.0), bits(3.0)]);
    assert_eq!(stack_values(&vm), vec![3.0]);
}

#[test]
fn store_and_get_round_trip() {
    let vm = run("macro main { push 7 set 4 get 4 add halt }");
    assert_eq!(stack_values(&vm), vec![14.0]);
}

#[test]
fn jump_skips_instructions() {
    let vm = run("macro main { jump 2 push 1 halt }");
    assert_eq!(stack_values(&vm), Vec::<f64>::new());
}

#[test]
fn builtin_pi_matches_double_precision() {
    let vm = run("macro main { get 1 halt }");
    assert_eq!(vm.stack, vec![std::f64::consts::PI.to_bits()]);
}

#[test]
fn builtin_tau_and_e() {
    let vm = run("macro main { tau e halt }");
    assert_eq!(vm.stack, vec![std::f64::consts::TAU.to_bits(), std::f64::consts::E.to_bits()]);
}

#[test]
fn seeded_bit_patterns_match_std() {
    assert_eq!(PI_BITS, std::f64::consts::PI.to_bits());
    assert_eq!(TAU_BITS, std::f64::consts::TAU.to_bits());
    assert_eq!(E_BITS, std::f64::consts::E.to_bits());
}

#[test]
fn missing_halt_rejected_before_any_effect() {
    let ops = compile("macro main { push 1 print }").unwrap();
    let mut vm = Vm::new(ops, ConstantStore::seeded());
    assert_eq!(vm.execute(FUEL), Err(VmError::MissingHalt));
    assert!(vm.stack.is_empty());
    assert!(vm.output.is_empty());
    assert_eq!(vm.pc, 0);
}

#[test]
fn add_underflow_mutates_nothing() {
    let ops = compile("macro main { push 1 add halt }").unwrap();
    let mut vm = Vm::new(ops, ConstantStore::seeded());
    let r = vm.execute(FUEL);
    assert_eq!(
        r,
        Err(VmError::StackUnderflow { opcode: Opcode::Add, required: 2, available: 1 })
    );
    assert_eq!(vm.stack, vec![bits(1.0)]);
    assert!(vm.output.is_empty());
}

#[test]
fn underflow_on_empty_stack() {
    for (src, op, req) in [
        ("macro main { pop halt }", Opcode::Pop, 1),
        ("macro main { dup halt }", Opcode::Dup, 1),
        ("macro main { sqrt halt }", Opcode::Sqrt, 1),
        ("macro main { print halt }", Opcode::Print, 1),
        ("macro main { sub halt }", Opcode::Sub, 2),
        ("macro main { mul halt }", Opcode::Mul, 2),
    ] {
        let ops = compile(src).unwrap();
        let mut vm = Vm::new(ops, ConstantStore::seeded());
        assert_eq!(
            vm.execute(FUEL),
            Err(VmError::StackUnderflow { opcode: op, required: req, available: 0 })
        );
    }
}

#[test]
fn unknown_constant_key() {
    let ops = compile("macro main { get 9 halt }").unwrap();
    let mut vm = Vm::new(ops, ConstantStore::seeded());
    assert_eq!(vm.execute(FUEL), Err(VmError::UnknownConstantKey { key: 9 }));
}

#[test]
fn out_of_range_jump() {
    let ops = compile("macro main { jump 99 halt }").unwrap();
    let mut vm = Vm::new(ops, ConstantStore::seeded());
    assert_eq!(vm.execute(FUEL), Err(VmError::InvalidJumpTarget { target: 99 }));
}

#[test]
fn runaway_program_hits_step_limit() {
    let ops = compile("macro main { jump 0 halt }").unwrap();
    let mut vm = Vm::new(ops, ConstantStore::seeded());
    assert_eq!(vm.execute(10), Err(VmError::StepLimitExceeded));
}

#[test]
fn store_new_is_empty() {
    let s = ConstantStore::new();
    assert_eq!(s.get(1), None);
}

#[test]
fn store_set_then_get() {
    let mut s = ConstantStore::new();
    s.set(5, bits(1.25));
    assert_eq!(s.get(5), Some(bits(1.25)));
    assert_eq!(s.get(6), None);
}

#[test]
fn store_set_shadows_earlier_entry() {
    let mut s = ConstantStore::seeded();
    s.set(1, bits(9.0));
    assert_eq!(s.get(1), Some(bits(9.0)));
    assert_eq!(s.get(2), Some(TAU_BITS));
}

#[test]
fn vm_new_starts_fresh() {
    let vm = Vm::new(vec![Opcode::Halt], ConstantStore::new());
    assert_eq!(vm.pc, 0);
    assert!(vm.stack.is_empty());
    assert!(vm.output.is_empty());
    assert_eq!(vm.instructions, vec![Opcode::Halt]);
}

#[test]
fn halt_beyond_skipped_code_is_found() {
    // The halt is present but stands after an out-of-range counter path:
    // running off the end reports the missing-halt condition.
    let mut vm = Vm::new(vec![Opcode::Jump(1), Opcode::Pc, Opcode::Halt], ConstantStore::new());
    assert!(vm.execute(FUEL).is_ok());
    let mut vm2 = Vm::new(vec![Opcode::Halt, Opcode::Pc], ConstantStore::new());
    vm2.pc = 1;
    assert_eq!(vm2.execute(FUEL), Err(VmError::MissingHalt));
}

#[test]
fn empty_program_is_missing_halt() {
    let mut vm = Vm::new(Vec::new(), ConstantStore::seeded());
    assert_eq!(vm.execute(FUEL), Err(VmError::MissingHalt));
}
